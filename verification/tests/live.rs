use ignite_server::json::{jstr, parse_json, to_value, Json};
use ignite_server::plugins::{channel_message, get_plugins, ChannelMsg, PluginDescriptor};
use ignite_server::registry::{VaultRegistry, WalkedItem};
use ignite_server::strmap::StrMap;
use ignite_server::ws::{
    apply_control, handle_control, handshake, Session, SocketAction, SocketEvent, WsQuery,
};

fn reg() -> VaultRegistry {
    VaultRegistry::discover("/vaults", &vec![WalkedItem { name: "Games".to_string(), path: "/vaults/Games".to_string(), is_dir: true, found: vec![] }])
}

fn client() -> Session {
    handshake(&reg(), WsQuery { vault: Some("Games".to_string()) })
        .ok()
        .expect("ws handshake to a known vault should succeed")
}

fn message(channel: &str, vault: &str) -> ChannelMsg {
    channel_message(channel, vault, "sync-status", parse_json("{\"ok\":true}").unwrap())
}

fn text(s: &mut Session, t: &str) -> SocketAction {
    s.react(SocketEvent::Text(t.to_string()))
}

fn sends(s: &mut Session, m: ChannelMsg) -> bool {
    matches!(s.react(SocketEvent::Channel(m)), SocketAction::Send(_))
}

#[test]
fn ws_rejects_unknown_vault() {
    let r = handshake(&reg(), WsQuery { vault: Some("Nope".to_string()) });
    assert_eq!(r.err(), Some(404), "handshake to an unknown vault must be rejected");
    assert_eq!(handshake(&reg(), WsQuery { vault: None }).err(), Some(400));
    assert_eq!(client().vault(), "Games");
}

#[test]
fn hub_delivers_channel_scoped_messages() {
    let msg = message("plugin:headless-sync", "Games");
    assert_eq!(msg.channel, "plugin:headless-sync");
    assert_eq!(msg.vault, "Games");
    let v: serde_json::Value = serde_json::from_str(&msg.json).unwrap();
    assert_eq!(v["channel"], "plugin:headless-sync");
    assert_eq!(v["type"], "sync-status");
    assert_eq!(v["payload"]["ok"], true);
}

#[test]
fn ws_accepts_subscribe_channel_and_keeps_streaming() {
    let mut s = client();
    let a = text(&mut s, r#"{"type":"subscribe-channel","channel":"plugin:headless-sync"}"#);
    assert!(matches!(a, SocketAction::Wait));
    match s.react(SocketEvent::Change("{\"path\":\"z.md\"}".to_string())) {
        SocketAction::Send(t) => assert_eq!(t, "{\"path\":\"z.md\"}"),
        _ => panic!("a subscribe-channel control message must be accepted and not break the stream"),
    }
}

#[test]
fn ws_broadcasts_to_two_clients() {
    for mut s in [client(), client()] {
        assert!(matches!(s.react(SocketEvent::Change("x".to_string())), SocketAction::Send(_)));
    }
}

#[test]
fn channel_messages_go_to_subscribers_of_their_vault() {
    let mut s = client();
    assert!(!sends(&mut s, message("c", "Games")));
    text(&mut s, r#"{"type":"subscribe-channel","channel":"c"}"#);
    assert!(s.subscribed("c"));
    match s.react(SocketEvent::Channel(message("c", "Games"))) {
        SocketAction::Send(t) => assert_eq!(t, message("c", "Games").json),
        _ => panic!("a subscriber receives the message"),
    }
    assert!(!sends(&mut s, message("c", "Journal")));
    assert!(!sends(&mut s, message("d", "Games")));
    text(&mut s, r#"{"type":"unsubscribe-channel","channel":"c"}"#);
    assert!(!sends(&mut s, message("c", "Games")));
}

#[test]
fn other_messages_change_nothing() {
    let mut channels: StrMap<()> = StrMap::new();
    handle_control(r#"{"type":"subscribe-channel","channel":"c"}"#, &mut channels);
    for t in [
        "not json",
        "[]",
        "{}",
        r#"{"type":"subscribe-channel"}"#,
        r#"{"type":"subscribe-channel","channel":5}"#,
        r#"{"type":"hello","channel":"d"}"#,
        r#"{"type":"unsubscribe-channel","channel":"e"}"#,
    ] {
        handle_control(t, &mut channels);
        assert_eq!(channels.keys(), vec!["c".to_string()], "{t}");
    }
    apply_control(&None, &mut channels);
    assert_eq!(channels.len(), 1);
}

#[test]
fn a_connection_waits_pings_and_stops() {
    let mut s = client();
    for e in [SocketEvent::ChangesMissed, SocketEvent::ChannelMissed, SocketEvent::ChannelEnd, SocketEvent::Other] {
        assert!(matches!(s.react(e), SocketAction::Wait));
    }
    assert!(matches!(s.react(SocketEvent::Heartbeat), SocketAction::Ping));
    for e in [SocketEvent::ChangesEnd, SocketEvent::Left, SocketEvent::SendFailed] {
        assert!(matches!(s.react(e), SocketAction::Stop));
    }
    let m: Option<Json> = Some(jstr("x"));
    assert!(matches!(s.react_with(SocketEvent::Text(String::new()), &m), SocketAction::Wait));
}

#[test]
fn plugins_is_empty_array() {
    assert!(to_value(&get_plugins(&vec![])).as_array().unwrap().is_empty());
}

#[test]
fn plugins_are_listed() {
    let v = to_value(&get_plugins(&vec![PluginDescriptor {
        id: "i".to_string(),
        name: "n".to_string(),
        description: "d".to_string(),
    }]));
    assert_eq!(v[0]["id"], "i");
    assert_eq!(v[0]["name"], "n");
    assert_eq!(v[0]["description"], "d");
    assert_eq!(v[0]["hasBundledPlugin"], false);
    assert!(v[0]["bundledPluginId"].is_null());
    assert!(v[0]["enabledVaults"].as_array().unwrap().is_empty());
    assert_eq!(v[0]["loaded"], true);
}
