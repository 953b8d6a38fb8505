//! The live connection: who may connect, which messages a client is sent, and the channels that
//! it asks for.
//!
//! A session is a machine from event to action; the caller owns the socket.

use vstd::prelude::*;

use crate::json::{parse_json, parsed_json, str_member, Json, JsonView};
use crate::plugins::{ChannelMsg, ChannelMsgView};
use crate::registry::VaultRegistry;
use crate::strmap::StrMap;
use crate::text::{str_eq, Text};

verus! {

/// The query of a connection.
pub struct WsQuery {
    pub vault: Option<String>,
}

/// Whether a client may connect: 400 where it names no vault, 404 where the vault is not known.
/// Both are told before the connection is made.
pub fn handshake(reg: &VaultRegistry, query: WsQuery) -> (r: Result<Session, u16>)
    ensures
        match query.vault {
            None => r == Err::<Session, u16>(400),
            Some(v) => if reg.vaults().contains_key(v@) {
                r matches Ok(s) && s@ == (SessionView { vault: v@, channels: Set::empty() })
            } else {
                r == Err::<Session, u16>(404)
            },
        },
{
    match query.vault {
        None => Err(400),
        Some(v) => if reg.contains(v.as_str()) {
            Ok(Session::new(v))
        } else {
            Err(404)
        },
    }
}

/// A connected client: its vault and the channels it asked for.
pub struct Session {
    vault: String,
    channels: StrMap<()>,
}

/// What a session says.
#[verifier::ext_equal]
pub struct SessionView {
    pub vault: Text,
    pub channels: Set<Text>,
}

/// What happens to a connection.
pub enum SocketEvent {
    /// The vault changed: the text for its clients.
    Change(String),
    /// Changes were missed.
    ChangesMissed,
    /// There will be no more changes.
    ChangesEnd,
    /// A plugin sent a message.
    Channel(ChannelMsg),
    /// Plugin messages were missed.
    ChannelMissed,
    /// There will be no more plugin messages.
    ChannelEnd,
    /// The client sent a text.
    Text(String),
    /// The client sent something else.
    Other,
    /// The client left.
    Left,
    /// It is time for a sign of life.
    Heartbeat,
    /// The client could not be sent something.
    SendFailed,
}

/// What to do about it.
pub enum SocketAction {
    /// Send this text to the client.
    Send(String),
    /// Ping the client.
    Ping,
    /// Nothing.
    Wait,
    /// End the connection.
    Stop,
}

/// What an event says.
pub enum SocketEventView {
    Change(Text),
    ChangesMissed,
    ChangesEnd,
    Channel(ChannelMsgView),
    ChannelMissed,
    ChannelEnd,
    Text(Text),
    Other,
    Left,
    Heartbeat,
    SendFailed,
}

/// What an action says.
pub enum SocketActionView {
    Send(Text),
    Ping,
    Wait,
    Stop,
}

impl SocketEvent {
    /// What the event says.
    pub open spec fn view(self) -> SocketEventView {
        match self {
            SocketEvent::Change(t) => SocketEventView::Change(t@),
            SocketEvent::ChangesMissed => SocketEventView::ChangesMissed,
            SocketEvent::ChangesEnd => SocketEventView::ChangesEnd,
            SocketEvent::Channel(m) => SocketEventView::Channel(m@),
            SocketEvent::ChannelMissed => SocketEventView::ChannelMissed,
            SocketEvent::ChannelEnd => SocketEventView::ChannelEnd,
            SocketEvent::Text(t) => SocketEventView::Text(t@),
            SocketEvent::Other => SocketEventView::Other,
            SocketEvent::Left => SocketEventView::Left,
            SocketEvent::Heartbeat => SocketEventView::Heartbeat,
            SocketEvent::SendFailed => SocketEventView::SendFailed,
        }
    }
}

impl SocketAction {
    /// What the action says.
    pub open spec fn view(self) -> SocketActionView {
        match self {
            SocketAction::Send(t) => SocketActionView::Send(t@),
            SocketAction::Ping => SocketActionView::Ping,
            SocketAction::Wait => SocketActionView::Wait,
            SocketAction::Stop => SocketActionView::Stop,
        }
    }
}

/// The channels after a message of the client: it subscribes to one, leaves one, or says
/// something else, which changes nothing.
pub open spec fn controlled(channels: Set<Text>, message: Option<JsonView>) -> Set<Text> {
    match message {
        None => channels,
        Some(j) => match (str_member(j, "type"@), str_member(j, "channel"@)) {
            (Some(t), Some(c)) => if t == "subscribe-channel"@ {
                channels.insert(c)
            } else if t == "unsubscribe-channel"@ {
                channels.remove(c)
            } else {
                channels
            },
            _ => channels,
        },
    }
}

/// What the client is sent, or what else happens, on an event. A change of the vault is always
/// passed on, a channel message only to a client of its vault that subscribed to its channel.
pub open spec fn reaction(s: SessionView, e: SocketEventView) -> SocketActionView {
    match e {
        SocketEventView::Change(t) => SocketActionView::Send(t),
        SocketEventView::Channel(m) => if m.vault == s.vault && s.channels.contains(m.channel) {
            SocketActionView::Send(m.json)
        } else {
            SocketActionView::Wait
        },
        SocketEventView::Heartbeat => SocketActionView::Ping,
        SocketEventView::ChangesEnd => SocketActionView::Stop,
        SocketEventView::Left => SocketActionView::Stop,
        SocketEventView::SendFailed => SocketActionView::Stop,
        _ => SocketActionView::Wait,
    }
}

/// The session after an event: only a text of the client changes it.
pub open spec fn next_session(s: SessionView, e: SocketEventView, message: Option<JsonView>) -> SessionView {
    match e {
        SocketEventView::Text(_) => SessionView { channels: controlled(s.channels, message), ..s },
        _ => s,
    }
}

/// The JSON value of an event, where it is a text of the client.
pub open spec fn message_in(e: SocketEventView) -> Option<JsonView> {
    match e {
        SocketEventView::Text(t) => parsed_json(t),
        _ => None,
    }
}

/// Keeps track of the channels that a client asks for.
pub fn handle_control(text: &str, channels: &mut StrMap<()>)
    ensures
        final(channels)@.dom() == controlled(old(channels)@.dom(), parsed_json(text@)),
{
    let message = parse_json(text);
    apply_control(&message, channels);
}

/// Keeps track of the channels that a client asks for, given its message where that is JSON.
pub fn apply_control(message: &Option<Json>, channels: &mut StrMap<()>)
    ensures
        final(channels)@.dom() == controlled(
            old(channels)@.dom(),
            match *message {
                Some(j) => Some(j@),
                None => None,
            },
        ),
{
    if let Some(j) = message {
        if let (Some(t), Some(c)) = (j.get_str("type"), j.get_str("channel")) {
            if str_eq(t, "subscribe-channel") {
                channels.insert(c.to_owned(), ());
                assert(channels@.dom() =~= old(channels)@.dom().insert(c@));
            } else if str_eq(t, "unsubscribe-channel") {
                channels.remove(c);
                assert(channels@.dom() =~= old(channels)@.dom().remove(c@));
            }
        }
    }
}

impl Session {
    /// What the session says.
    pub closed spec fn view(self) -> SessionView {
        SessionView { vault: self.vault@, channels: self.channels@.dom() }
    }

    /// A client of a vault that asked for no channel yet.
    fn new(vault: String) -> (r: Self)
        ensures
            r@ == (SessionView { vault: vault@, channels: Set::empty() }),
    {
        let r = Session { vault, channels: StrMap::new() };
        assert(r@.channels =~= Set::<Text>::empty());
        r
    }

    /// The vault of the client.
    pub fn vault(&self) -> (r: &str)
        ensures
            r@ == self@.vault,
    {
        self.vault.as_str()
    }

    /// Whether the client asked for a channel.
    pub fn subscribed(&self, channel: &str) -> (r: bool)
        ensures
            r == self@.channels.contains(channel@),
    {
        self.channels.contains_key(channel)
    }

    /// Takes an event, given the JSON value of the client's text where it is one.
    pub fn react_with(&mut self, event: SocketEvent, message: &Option<Json>) -> (r: SocketAction)
        ensures
            r@ == reaction(old(self)@, event@),
            final(self)@ == next_session(
                old(self)@,
                event@,
                match *message {
                    Some(j) => Some(j@),
                    None => None,
                },
            ),
    {
        match event {
            SocketEvent::Change(t) => SocketAction::Send(t),
            SocketEvent::Channel(m) => if str_eq(m.vault.as_str(), self.vault.as_str())
                && self.channels.contains_key(m.channel.as_str()) {
                SocketAction::Send(m.json)
            } else {
                SocketAction::Wait
            },
            SocketEvent::Text(_) => {
                apply_control(message, &mut self.channels);
                SocketAction::Wait
            },
            SocketEvent::Heartbeat => SocketAction::Ping,
            SocketEvent::ChangesEnd => SocketAction::Stop,
            SocketEvent::Left => SocketAction::Stop,
            SocketEvent::SendFailed => SocketAction::Stop,
            SocketEvent::ChangesMissed => SocketAction::Wait,
            SocketEvent::ChannelMissed => SocketAction::Wait,
            SocketEvent::ChannelEnd => SocketAction::Wait,
            SocketEvent::Other => SocketAction::Wait,
        }
    }

    /// Takes an event.
    pub fn react(&mut self, event: SocketEvent) -> (r: SocketAction)
        ensures
            r@ == reaction(old(self)@, event@),
            final(self)@ == next_session(old(self)@, event@, message_in(event@)),
    {
        match event {
            SocketEvent::Text(t) => {
                handle_control(t.as_str(), &mut self.channels);
                SocketAction::Wait
            },
            other => self.react_with(other, &None),
        }
    }
}

// ---- laws ----

/// After a subscription the messages of that channel to the client's vault are passed on; after
/// it is taken back they are not.
pub proof fn law_subscriptions(s: SessionView, text: Text, message: JsonView, m: ChannelMsgView)
    requires
        m.vault == s.vault,
        str_member(message, "channel"@) == Some(m.channel),
    ensures
        ({
            let after = next_session(s, SocketEventView::Text(text), Some(message));
            &&& str_member(message, "type"@) == Some("subscribe-channel"@) ==> reaction(
                after,
                SocketEventView::Channel(m),
            ) == SocketActionView::Send(m.json)
            &&& str_member(message, "type"@) == Some("unsubscribe-channel"@) ==> reaction(
                after,
                SocketEventView::Channel(m),
            ) == SocketActionView::Wait
        }),
{
    reveal_strlit("subscribe-channel");
    reveal_strlit("unsubscribe-channel");
    assert("subscribe-channel"@.len() != "unsubscribe-channel"@.len());
}

/// No message for another vault is ever passed on.
pub proof fn law_messages_stay_in_their_vault(s: SessionView, m: ChannelMsgView)
    requires
        m.vault != s.vault,
    ensures
        reaction(s, SocketEventView::Channel(m)) == SocketActionView::Wait,
{
}

/// Whatever a client sends, it stays a client of its vault, and every change of that vault is
/// passed on to it.
pub proof fn law_changes_always_pass(
    s: SessionView,
    e: SocketEventView,
    message: Option<JsonView>,
    change: Text,
)
    ensures
        next_session(s, e, message).vault == s.vault,
        reaction(next_session(s, e, message), SocketEventView::Change(change))
            == SocketActionView::Send(change),
{
}

/// A channel message is passed on exactly where it is for the client's vault and the client
/// subscribed to its channel, and as the text that it holds.
pub proof fn law_who_gets_a_message(s: SessionView, m: ChannelMsgView)
    ensures
        m.vault == s.vault && s.channels.contains(m.channel) ==> reaction(
            s,
            SocketEventView::Channel(m),
        ) == SocketActionView::Send(m.json),
        m.vault != s.vault || !s.channels.contains(m.channel) ==> reaction(
            s,
            SocketEventView::Channel(m),
        ) == SocketActionView::Wait,
{
}

/// A subscription adds its channel and no other, and taking one back drops that channel and no
/// other. A message of another kind, without a channel, or that is no JSON changes nothing.
pub proof fn law_subscriptions_one_by_one(channels: Set<Text>, j: JsonView, c: Text, other: Text)
    ensures
        str_member(j, "type"@) == Some("subscribe-channel"@) && str_member(j, "channel"@) == Some(c) ==> ({
            let now = controlled(channels, Some(j));
            &&& now.contains(c)
            &&& other != c ==> (now.contains(other) <==> channels.contains(other))
        }),
        str_member(j, "type"@) == Some("unsubscribe-channel"@) && str_member(j, "channel"@) == Some(c)
            ==> ({
            let now = controlled(channels, Some(j));
            &&& !now.contains(c)
            &&& other != c ==> (now.contains(other) <==> channels.contains(other))
        }),
        str_member(j, "type"@) != Some("subscribe-channel"@) && str_member(j, "type"@) != Some(
            "unsubscribe-channel"@,
        ) ==> controlled(channels, Some(j)) == channels,
        str_member(j, "channel"@) is None ==> controlled(channels, Some(j)) == channels,
        controlled(channels, None) == channels,
{
    reveal_strlit("subscribe-channel");
    reveal_strlit("unsubscribe-channel");
    assert("subscribe-channel"@.len() != "unsubscribe-channel"@.len());
}

/// A heartbeat is a ping. The connection ends with the changes, with the client, and where the
/// client cannot be reached; nothing else ends it. Only a text of the client changes the session,
/// and it is not answered.
pub proof fn law_what_ends_a_connection(s: SessionView, t: Text, message: Option<JsonView>)
    ensures
        reaction(s, SocketEventView::Heartbeat) == SocketActionView::Ping,
        reaction(s, SocketEventView::ChangesEnd) == SocketActionView::Stop,
        reaction(s, SocketEventView::Left) == SocketActionView::Stop,
        reaction(s, SocketEventView::SendFailed) == SocketActionView::Stop,
        reaction(s, SocketEventView::ChangesMissed) == SocketActionView::Wait,
        reaction(s, SocketEventView::ChannelMissed) == SocketActionView::Wait,
        reaction(s, SocketEventView::ChannelEnd) == SocketActionView::Wait,
        reaction(s, SocketEventView::Other) == SocketActionView::Wait,
        reaction(s, SocketEventView::Text(t)) == SocketActionView::Wait,
        forall|e: SocketEventView| !(e is Text) ==> #[trigger] next_session(s, e, message) == s,
        next_session(s, SocketEventView::Text(t), message).channels == controlled(
            s.channels,
            message,
        ),
        message_in(SocketEventView::Text(t)) == parsed_json(t),
{
}

/// Events and actions say what they hold.
pub proof fn law_what_events_say(t: String, m: ChannelMsg)
    ensures
        SocketEvent::Change(t)@ == SocketEventView::Change(t@),
        SocketEvent::ChangesMissed@ == SocketEventView::ChangesMissed,
        SocketEvent::ChangesEnd@ == SocketEventView::ChangesEnd,
        SocketEvent::Channel(m)@ == SocketEventView::Channel(m@),
        SocketEvent::ChannelMissed@ == SocketEventView::ChannelMissed,
        SocketEvent::ChannelEnd@ == SocketEventView::ChannelEnd,
        SocketEvent::Text(t)@ == SocketEventView::Text(t@),
        SocketEvent::Other@ == SocketEventView::Other,
        SocketEvent::Left@ == SocketEventView::Left,
        SocketEvent::Heartbeat@ == SocketEventView::Heartbeat,
        SocketEvent::SendFailed@ == SocketEventView::SendFailed,
        SocketAction::Send(t)@ == SocketActionView::Send(t@),
        SocketAction::Ping@ == SocketActionView::Ping,
        SocketAction::Wait@ == SocketActionView::Wait,
        SocketAction::Stop@ == SocketActionView::Stop,
{
}

} // verus!
