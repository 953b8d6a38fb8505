//! Server plugins: how they describe themselves, and the messages they send on their channels.

use vstd::prelude::*;

use crate::json::{array_view, json_text, jstr, lemma_array_push, put, to_text, Json, JsonView};
use crate::text::Text;

verus! {

/// What a client is told of a plugin.
#[derive(Debug, Clone)]
pub struct PluginDescriptor {
    pub id: String,
    pub name: String,
    pub description: String,
}

/// A plugin of the server.
pub trait ServerPlugin: Send + Sync {
    /// What a client is told of the plugin.
    fn descriptor(&self) -> PluginDescriptor;
}

/// A message on a channel, for the clients of one vault. `json` is the text that a client
/// receives.
#[derive(Debug, Clone)]
pub struct ChannelMsg {
    pub channel: String,
    pub vault: String,
    pub json: String,
}

/// What a channel message says.
pub struct ChannelMsgView {
    pub channel: Text,
    pub vault: Text,
    pub json: Text,
}

impl ChannelMsg {
    /// What the message says.
    pub open spec fn view(self) -> ChannelMsgView {
        ChannelMsgView { channel: self.channel@, vault: self.vault@, json: self.json@ }
    }
}

/// A channel message on the wire: `{channel, type, payload}`.
pub open spec fn wire_value(channel: Text, msg_type: Text, payload: JsonView) -> JsonView {
    JsonView::Object(
        Map::<Text, JsonView>::empty().insert("channel"@, JsonView::Str(channel)).insert(
            "type"@,
            JsonView::Str(msg_type),
        ).insert("payload"@, payload),
    )
}

/// The message that carries a payload to the clients of a vault.
pub open spec fn message_of(channel: Text, vault: Text, msg_type: Text, payload: JsonView) -> ChannelMsgView {
    ChannelMsgView { channel, vault, json: json_text(wire_value(channel, msg_type, payload)) }
}

/// Makes the message that carries a payload to the clients of a vault.
pub fn channel_message(channel: &str, vault: &str, msg_type: &str, payload: Json) -> (r: ChannelMsg)
    ensures
        r@ == message_of(channel@, vault@, msg_type@, payload@),
{
    let mut o: Vec<(String, Json)> = Vec::new();
    put(&mut o, "channel", jstr(channel));
    put(&mut o, "type", jstr(msg_type));
    put(&mut o, "payload", payload);
    ChannelMsg {
        channel: channel.to_owned(),
        vault: vault.to_owned(),
        json: to_text(&Json::Object(o)),
    }
}

/// A plugin in the listing. None can be bundled or switched, and all are loaded.
pub open spec fn plugin_value(p: PluginDescriptor) -> JsonView {
    JsonView::Object(
        Map::<Text, JsonView>::empty().insert("id"@, JsonView::Str(p.id@)).insert(
            "name"@,
            JsonView::Str(p.name@),
        ).insert("description"@, JsonView::Str(p.description@)).insert(
            "hasBundledPlugin"@,
            JsonView::Bool(false),
        ).insert("bundledPluginId"@, JsonView::Null).insert(
            "enabledVaults"@,
            JsonView::Array(Seq::empty()),
        ).insert("loaded"@, JsonView::Bool(true)),
    )
}

fn plugin_json(p: &PluginDescriptor) -> (r: Json)
    ensures
        r@ == plugin_value(*p),
{
    let mut o: Vec<(String, Json)> = Vec::new();
    put(&mut o, "id", jstr(p.id.as_str()));
    put(&mut o, "name", jstr(p.name.as_str()));
    put(&mut o, "description", jstr(p.description.as_str()));
    put(&mut o, "hasBundledPlugin", Json::Bool(false));
    put(&mut o, "bundledPluginId", Json::Null);
    put(&mut o, "enabledVaults", Json::Array(Vec::new()));
    put(&mut o, "loaded", Json::Bool(true));
    Json::Object(o)
}

/// The listing of the plugins, in the order of their registration.
pub fn get_plugins(list: &Vec<PluginDescriptor>) -> (r: Json)
    ensures
        r@ == JsonView::Array(list@.map_values(|p: PluginDescriptor| plugin_value(p))),
{
    let mut out: Vec<Json> = Vec::new();
    let ghost f = |p: PluginDescriptor| plugin_value(p);
    assert(list@.take(0).map_values(f) =~= Seq::<JsonView>::empty());
    for i in 0..list.len()
        invariant
            f == (|p: PluginDescriptor| plugin_value(p)),
            array_view(out@) == list@.take(i as int).map_values(f),
    {
        let j = plugin_json(&list[i]);
        proof {
            lemma_array_push(out@, j);
            assert(list@.take(i as int + 1).map_values(f) =~= list@.take(i as int).map_values(
                f,
            ).push(plugin_value(list@[i as int])));
        }
        out.push(j);
    }
    assert(list@.take(list@.len() as int) =~= list@);
    Json::Array(out)
}

// ---- laws ----

/// A message goes to the clients of its vault on its channel, as a text that names the channel and
/// the kind and carries the payload.
pub proof fn law_messages_on_the_wire(channel: Text, vault: Text, msg_type: Text, payload: JsonView)
    ensures
        message_of(channel, vault, msg_type, payload).channel == channel,
        message_of(channel, vault, msg_type, payload).vault == vault,
        exists|j: JsonView| #[trigger]
            json_text(j) == message_of(channel, vault, msg_type, payload).json && j is Object
                && j->Object_0.dom() == set!["channel"@, "type"@, "payload"@]
                && j->Object_0["channel"@] == JsonView::Str(channel) && j->Object_0["type"@]
                == JsonView::Str(msg_type) && j->Object_0["payload"@] == payload,
{
    reveal_strlit("channel");
    reveal_strlit("type");
    reveal_strlit("payload");
    assert("channel"@.len() == 7);
    assert("type"@.len() == 4);
    assert("payload"@.len() == 7);
    assert("channel"@[0] != "payload"@[0]);
    let j = wire_value(channel, msg_type, payload);
    assert(j->Object_0.dom() =~= set!["channel"@, "type"@, "payload"@]);
    assert(json_text(j) == message_of(channel, vault, msg_type, payload).json);
}

/// The listing tells of a plugin its id, name and description, that it brings no bundled plugin,
/// that no vault has it enabled, and that it is loaded.
pub proof fn law_a_plugin_on_the_wire(p: PluginDescriptor)
    ensures
        plugin_value(p) is Object,
        ({
            let o = plugin_value(p)->Object_0;
            &&& o.dom() == set![
                "id"@,
                "name"@,
                "description"@,
                "hasBundledPlugin"@,
                "bundledPluginId"@,
                "enabledVaults"@,
                "loaded"@,
            ]
            &&& o["id"@] == JsonView::Str(p.id@)
            &&& o["name"@] == JsonView::Str(p.name@)
            &&& o["description"@] == JsonView::Str(p.description@)
            &&& o["hasBundledPlugin"@] == JsonView::Bool(false)
            &&& o["bundledPluginId"@] == JsonView::Null
            &&& o["enabledVaults"@] == JsonView::Array(Seq::empty())
            &&& o["loaded"@] == JsonView::Bool(true)
        }),
{
    reveal_strlit("id");
    reveal_strlit("name");
    reveal_strlit("description");
    reveal_strlit("hasBundledPlugin");
    reveal_strlit("bundledPluginId");
    reveal_strlit("enabledVaults");
    reveal_strlit("loaded");
    assert("id"@.len() == 2);
    assert("name"@.len() == 4);
    assert("description"@.len() == 11);
    assert("hasBundledPlugin"@.len() == 16);
    assert("bundledPluginId"@.len() == 15);
    assert("enabledVaults"@.len() == 13);
    assert("loaded"@.len() == 6);
    assert(plugin_value(p)->Object_0.dom() =~= set![
        "id"@,
        "name"@,
        "description"@,
        "hasBundledPlugin"@,
        "bundledPluginId"@,
        "enabledVaults"@,
        "loaded"@,
    ]);
}

/// A channel message says its own channel, vault and text.
pub proof fn law_what_messages_say(m: ChannelMsg)
    ensures
        m@.channel == m.channel@,
        m@.vault == m.vault@,
        m@.json == m.json@,
{
}

} // verus!
