//! The server settings: defaults, what the environment and the settings file say, and the rules
//! by which a client changes them. Also the version and plugin listings.

use vstd::prelude::*;

use crate::json::{is_reserved_name, jstr, jstrings, lemma_short_name, member, object_view, parse_json, parsed_json, put, reads_back, str_member, str_value, strings_json, to_pretty, uint_value, Json, JsonView};
use crate::paths::{join, joined};
use crate::reply::{fail, failure, Failure, FailureView};
use crate::text::{chars_of, clone_list, items_of, join2, lemma_list_concat, lemma_list_items, lemma_list_text, lemma_trim_ends, list_items, list_text, opt_str, parse_uint, str_eq, string_of, strings_of, texts, trim, trim_chars, uint_of, Text};

verus! {

/// The hard ceiling for request bodies: 500 MiB.
pub const MAX_BODY_BACKSTOP: u64 = 524_288_000;

// ---- the settings ----

/// The effective server settings.
#[derive(Debug, Clone)]
pub struct Settings {
    pub content_cache_bytes: u64,
    pub input_cache_bytes: u64,
    pub input_cache_ttl_ms: u64,
    /// Without effect: writes are never held back. Clients expect the key.
    pub write_coalesce_ms: u64,
    pub max_body_bytes: u64,
    pub proxy_mode: String,
    pub proxy_allowlist: Vec<String>,
    pub direct_fetch_hosts: Vec<String>,
    pub ws_origins: Vec<String>,
    pub proxy_allow_private: Vec<String>,
}

/// What the settings say.
#[verifier::ext_equal]
pub struct SettingsView {
    pub content_cache_bytes: u64,
    pub input_cache_bytes: u64,
    pub input_cache_ttl_ms: u64,
    pub write_coalesce_ms: u64,
    pub max_body_bytes: u64,
    pub proxy_mode: Text,
    pub proxy_allowlist: Seq<Text>,
    pub direct_fetch_hosts: Seq<Text>,
    pub ws_origins: Seq<Text>,
    pub proxy_allow_private: Seq<Text>,
}

/// The settings that hold where nothing else is said.
pub open spec fn default_settings() -> SettingsView {
    SettingsView {
        content_cache_bytes: 52_428_800,
        input_cache_bytes: 209_715_200,
        input_cache_ttl_ms: 300_000,
        write_coalesce_ms: 0,
        max_body_bytes: 52_428_800,
        proxy_mode: "any"@,
        proxy_allowlist: Seq::empty(),
        direct_fetch_hosts: Seq::empty(),
        ws_origins: Seq::empty(),
        proxy_allow_private: Seq::empty(),
    }
}

impl Settings {
    /// What the settings say.
    pub open spec fn view(self) -> SettingsView {
        SettingsView {
            content_cache_bytes: self.content_cache_bytes,
            input_cache_bytes: self.input_cache_bytes,
            input_cache_ttl_ms: self.input_cache_ttl_ms,
            write_coalesce_ms: self.write_coalesce_ms,
            max_body_bytes: self.max_body_bytes,
            proxy_mode: self.proxy_mode@,
            proxy_allowlist: texts(self.proxy_allowlist@),
            direct_fetch_hosts: texts(self.direct_fetch_hosts@),
            ws_origins: texts(self.ws_origins@),
            proxy_allow_private: texts(self.proxy_allow_private@),
        }
    }

    /// A copy.
    pub fn copied(&self) -> (r: Settings)
        ensures
            r@ == self@,
    {
        Settings {
            content_cache_bytes: self.content_cache_bytes,
            input_cache_bytes: self.input_cache_bytes,
            input_cache_ttl_ms: self.input_cache_ttl_ms,
            write_coalesce_ms: self.write_coalesce_ms,
            max_body_bytes: self.max_body_bytes,
            proxy_mode: self.proxy_mode.clone(),
            proxy_allowlist: clone_list(&self.proxy_allowlist),
            direct_fetch_hosts: clone_list(&self.direct_fetch_hosts),
            ws_origins: clone_list(&self.ws_origins),
            proxy_allow_private: clone_list(&self.proxy_allow_private),
        }
    }
}

impl Default for Settings {
    fn default() -> (r: Self)
        ensures
            r@ == default_settings(),
    {
        let r = Settings {
            content_cache_bytes: 52_428_800,
            input_cache_bytes: 209_715_200,
            input_cache_ttl_ms: 300_000,
            write_coalesce_ms: 0,
            max_body_bytes: 52_428_800,
            proxy_mode: "any".to_owned(),
            proxy_allowlist: Vec::new(),
            direct_fetch_hosts: Vec::new(),
            ws_origins: Vec::new(),
            proxy_allow_private: Vec::new(),
        };
        assert(r@ =~= default_settings());
        r
    }
}

/// The items of a comma-separated list, trimmed, without the empty ones.
pub fn parse_list(raw: &str) -> (r: Vec<String>)
    ensures
        texts(r@) == list_items(raw@, ','),
{
    strings_of(&items_of(&chars_of(raw), ','))
}

// ---- changing them ----

/// The settings that are whole numbers.
#[derive(Clone, Copy)]
pub enum NumberKey {
    ContentCache,
    InputCache,
    InputCacheTtl,
    WriteCoalesce,
    MaxBody,
}

/// The settings that are lists which a client may change.
#[derive(Clone, Copy)]
pub enum ListKey {
    ProxyAllowlist,
    DirectFetchHosts,
}

impl NumberKey {
    /// The name on the wire.
    pub open spec fn name(self) -> Text {
        match self {
            NumberKey::ContentCache => "contentCacheBytes"@,
            NumberKey::InputCache => "inputCacheBytes"@,
            NumberKey::InputCacheTtl => "inputCacheTtlMs"@,
            NumberKey::WriteCoalesce => "writeCoalesceMs"@,
            NumberKey::MaxBody => "maxBodyBytes"@,
        }
    }

    /// The name on the wire.
    fn text(self) -> (r: &'static str)
        ensures
            r@ == self.name(),
    {
        match self {
            NumberKey::ContentCache => "contentCacheBytes",
            NumberKey::InputCache => "inputCacheBytes",
            NumberKey::InputCacheTtl => "inputCacheTtlMs",
            NumberKey::WriteCoalesce => "writeCoalesceMs",
            NumberKey::MaxBody => "maxBodyBytes",
        }
    }
}

impl ListKey {
    /// The name on the wire.
    pub open spec fn name(self) -> Text {
        match self {
            ListKey::ProxyAllowlist => "proxyAllowlist"@,
            ListKey::DirectFetchHosts => "directFetchHosts"@,
        }
    }

    /// The name on the wire.
    fn text(self) -> (r: &'static str)
        ensures
            r@ == self.name(),
    {
        match self {
            ListKey::ProxyAllowlist => "proxyAllowlist",
            ListKey::DirectFetchHosts => "directFetchHosts",
        }
    }
}

/// The settings with one number changed.
pub open spec fn with_number(s: SettingsView, key: NumberKey, n: u64) -> SettingsView {
    match key {
        NumberKey::ContentCache => SettingsView { content_cache_bytes: n, ..s },
        NumberKey::InputCache => SettingsView { input_cache_bytes: n, ..s },
        NumberKey::InputCacheTtl => SettingsView { input_cache_ttl_ms: n, ..s },
        NumberKey::WriteCoalesce => SettingsView { write_coalesce_ms: n, ..s },
        NumberKey::MaxBody => SettingsView { max_body_bytes: n, ..s },
    }
}

/// The settings with one list changed.
pub open spec fn with_list(s: SettingsView, key: ListKey, v: Seq<Text>) -> SettingsView {
    match key {
        ListKey::ProxyAllowlist => SettingsView { proxy_allowlist: v, ..s },
        ListKey::DirectFetchHosts => SettingsView { direct_fetch_hosts: v, ..s },
    }
}

/// The three proxy modes.
pub open spec fn is_proxy_mode(t: Text) -> bool {
    t == "any"@ || t == "allowlist"@ || t == "disabled"@
}

/// How far a change has come: the settings so far, and the message where it broke off.
pub type Progress = (SettingsView, Option<Text>);

/// The member `proxyMode` of a change.
pub open spec fn mode_step(s: SettingsView, body: JsonView) -> Progress {
    match member(body, "proxyMode"@) {
        None => (s, None),
        Some(v) => match str_value(v) {
            Some(m) => if is_proxy_mode(m) {
                (SettingsView { proxy_mode: m, ..s }, None)
            } else {
                (s, Some("proxyMode must be one of: any, allowlist, disabled"@))
            },
            None => (s, Some("proxyMode must be one of: any, allowlist, disabled"@)),
        },
    }
}

/// A whole-number member of a change.
pub open spec fn number_step(s: SettingsView, body: JsonView, key: NumberKey) -> Progress {
    match member(body, key.name()) {
        None => (s, None),
        Some(v) => match uint_value(v) {
            None => (s, Some(key.name() + " must be a non-negative integer"@)),
            Some(n) => if key is MaxBody && !(1 <= n <= MAX_BODY_BACKSTOP) {
                (s, Some("maxBodyBytes must be between 1 and 524288000"@))
            } else {
                (with_number(s, key, n), None)
            },
        },
    }
}

/// The texts of an array of strings that are not blank, each trimmed.
pub open spec fn text_items(v: JsonView) -> Option<Seq<Text>> {
    match v {
        JsonView::Array(a) => if forall|i: int|
            0 <= i < a.len() ==> (#[trigger] a[i]) is Str && trim(a[i]->Str_0).len() > 0 {
            Some(a.map_values(|j: JsonView| trim(j->Str_0)))
        } else {
            None
        },
        _ => None,
    }
}

/// A list member of a change.
pub open spec fn list_step(s: SettingsView, body: JsonView, key: ListKey) -> Progress {
    match member(body, key.name()) {
        None => (s, None),
        Some(v) => match text_items(v) {
            None => (s, Some(key.name() + " must be an array of non-empty strings"@)),
            Some(items) => (with_list(s, key, items), None),
        },
    }
}

/// Goes on with a number, unless the change broke off.
pub open spec fn then_number(p: Progress, body: JsonView, key: NumberKey) -> Progress {
    if p.1 is Some {
        p
    } else {
        number_step(p.0, body, key)
    }
}

/// Goes on with a list, unless the change broke off.
pub open spec fn then_list(p: Progress, body: JsonView, key: ListKey) -> Progress {
    if p.1 is Some {
        p
    } else {
        list_step(p.0, body, key)
    }
}

/// The settings after a change, and the message where the change breaks off at its first
/// invalid member. Members are taken in a fixed order; those before the invalid one count.
/// Members that are not named here, `wsOrigins` and `proxyAllowPrivate` among them, are passed
/// over.
pub open spec fn merged(s: SettingsView, body: JsonView) -> Progress {
    match body {
        JsonView::Object(_) => {
            let p = mode_step(s, body);
            let p = then_number(p, body, NumberKey::ContentCache);
            let p = then_number(p, body, NumberKey::InputCache);
            let p = then_number(p, body, NumberKey::InputCacheTtl);
            let p = then_number(p, body, NumberKey::WriteCoalesce);
            let p = then_number(p, body, NumberKey::MaxBody);
            let p = then_list(p, body, ListKey::ProxyAllowlist);
            then_list(p, body, ListKey::DirectFetchHosts)
        },
        _ => (s, Some("body must be an object"@)),
    }
}

/// The message of a change that broke off.
pub open spec fn message(r: Result<(), String>) -> Option<Text> {
    match r {
        Ok(()) => None,
        Err(e) => Some(e@),
    }
}

fn merge_mode(s: &mut Settings, body: &Json) -> (r: Result<(), String>)
    ensures
        (final(s)@, message(r)) == mode_step(old(s)@, body@),
{
    let v = match body.get("proxyMode") {
        Some(v) => v,
        None => {
            return Ok(());
        },
    };
    if let Some(m) = v.as_str() {
        if str_eq(m, "any") || str_eq(m, "allowlist") || str_eq(m, "disabled") {
            s.proxy_mode = m.to_owned();
            return Ok(());
        }
    }
    Err("proxyMode must be one of: any, allowlist, disabled".to_owned())
}

fn merge_number(s: &mut Settings, body: &Json, key: NumberKey) -> (r: Result<(), String>)
    ensures
        (final(s)@, message(r)) == number_step(old(s)@, body@, key),
{
    let v = match body.get(key.text()) {
        Some(v) => v,
        None => {
            return Ok(());
        },
    };
    let n: u64 = match v.as_u64() {
        Some(n) => n,
        None => {
            return Err(join2(key.text(), " must be a non-negative integer"));
        },
    };
    match key {
        NumberKey::ContentCache => {
            s.content_cache_bytes = n;
        },
        NumberKey::InputCache => {
            s.input_cache_bytes = n;
        },
        NumberKey::InputCacheTtl => {
            s.input_cache_ttl_ms = n;
        },
        NumberKey::WriteCoalesce => {
            s.write_coalesce_ms = n;
        },
        NumberKey::MaxBody => {
            if n < 1 || n > MAX_BODY_BACKSTOP {
                return Err("maxBodyBytes must be between 1 and 524288000".to_owned());
            }
            s.max_body_bytes = n;
        },
    }
    Ok(())
}

/// Reads an array of strings that are not blank.
fn read_items(v: &Json) -> (r: Option<Vec<String>>)
    ensures
        r is Some <==> text_items(v@) is Some,
        r matches Some(items) ==> text_items(v@) == Some(texts(items@)),
{
    let a = match v {
        Json::Array(a) => a,
        _ => {
            return None;
        },
    };
    proof {
        crate::json::lemma_array_view(a@);
    }
    let ghost all = crate::json::array_view(a@);
    let mut out: Vec<String> = Vec::new();
    for i in 0..a.len()
        invariant
            v@ == JsonView::Array(all),
            all.len() == a@.len(),
            forall|k: int| 0 <= k < a@.len() ==> all[k] == (#[trigger] a@[k])@,
            out@.len() == i,
            forall|k: int|
                0 <= k < i ==> (#[trigger] all[k]) is Str && trim(all[k]->Str_0).len() > 0
                    && out@[k]@ == trim(all[k]->Str_0),
    {
        assert(all[i as int] == a@[i as int]@);
        match a[i].as_str() {
            Some(s) => {
                let t = trim_chars(&chars_of(s));
                if t.len() == 0 {
                    return None;
                }
                out.push(string_of(&t));
            },
            None => {
                return None;
            },
        }
    }
    assert(texts(out@) =~= text_items(v@)->0);
    Some(out)
}

fn merge_list(s: &mut Settings, body: &Json, key: ListKey) -> (r: Result<(), String>)
    ensures
        (final(s)@, message(r)) == list_step(old(s)@, body@, key),
{
    let v = match body.get(key.text()) {
        Some(v) => v,
        None => {
            return Ok(());
        },
    };
    match read_items(v) {
        Some(items) => {
            match key {
                ListKey::ProxyAllowlist => {
                    s.proxy_allowlist = items;
                },
                ListKey::DirectFetchHosts => {
                    s.direct_fetch_hosts = items;
                },
            }
            Ok(())
        },
        None => Err(join2(key.text(), " must be an array of non-empty strings")),
    }
}

/// Validates a partial settings object and merges it into `s`, up to its first invalid member.
pub fn merge_clean(s: &mut Settings, body: &Json) -> (r: Result<(), String>)
    ensures
        (final(s)@, message(r)) == merged(old(s)@, body@),
{
    if !body.is_object() {
        return Err("body must be an object".to_owned());
    }
    if let Err(e) = merge_mode(s, body) {
        return Err(e);
    }
    if let Err(e) = merge_number(s, body, NumberKey::ContentCache) {
        return Err(e);
    }
    if let Err(e) = merge_number(s, body, NumberKey::InputCache) {
        return Err(e);
    }
    if let Err(e) = merge_number(s, body, NumberKey::InputCacheTtl) {
        return Err(e);
    }
    if let Err(e) = merge_number(s, body, NumberKey::WriteCoalesce) {
        return Err(e);
    }
    if let Err(e) = merge_number(s, body, NumberKey::MaxBody) {
        return Err(e);
    }
    if let Err(e) = merge_list(s, body, ListKey::ProxyAllowlist) {
        return Err(e);
    }
    merge_list(s, body, ListKey::DirectFetchHosts)
}

/// Applies a settings file to `s`. A file that is wrong in part counts up to its first invalid
/// member.
pub fn apply_persisted(s: &mut Settings, parsed: &Json)
    ensures
        final(s)@ == merged(old(s)@, parsed@).0,
{
    let _ = merge_clean(s, parsed);
}

// ---- their JSON form ----

/// The members of the settings that are kept in the settings file.
pub open spec fn file_members(s: SettingsView) -> Map<Text, JsonView> {
    Map::<Text, JsonView>::empty().insert(
        "contentCacheBytes"@,
        JsonView::Int(s.content_cache_bytes as int),
    ).insert("inputCacheBytes"@, JsonView::Int(s.input_cache_bytes as int)).insert(
        "inputCacheTtlMs"@,
        JsonView::Int(s.input_cache_ttl_ms as int),
    ).insert("writeCoalesceMs"@, JsonView::Int(s.write_coalesce_ms as int)).insert(
        "maxBodyBytes"@,
        JsonView::Int(s.max_body_bytes as int),
    ).insert("proxyMode"@, JsonView::Str(s.proxy_mode)).insert(
        "proxyAllowlist"@,
        strings_json(s.proxy_allowlist),
    ).insert("directFetchHosts"@, strings_json(s.direct_fetch_hosts))
}

/// The settings as a client sees them.
pub open spec fn settings_value(s: SettingsView) -> JsonView {
    JsonView::Object(
        file_members(s).insert("wsOrigins"@, strings_json(s.ws_origins)).insert(
            "proxyAllowPrivate"@,
            strings_json(s.proxy_allow_private),
        ),
    )
}

/// The members of the settings file.
fn file_entries(s: &Settings) -> (r: Vec<(String, Json)>)
    ensures
        object_view(r@) == file_members(s@),
{
    let mut o: Vec<(String, Json)> = Vec::new();
    put(&mut o, "contentCacheBytes", Json::Uint(s.content_cache_bytes));
    put(&mut o, "inputCacheBytes", Json::Uint(s.input_cache_bytes));
    put(&mut o, "inputCacheTtlMs", Json::Uint(s.input_cache_ttl_ms));
    put(&mut o, "writeCoalesceMs", Json::Uint(s.write_coalesce_ms));
    put(&mut o, "maxBodyBytes", Json::Uint(s.max_body_bytes));
    put(&mut o, "proxyMode", Json::Str(s.proxy_mode.clone()));
    put(&mut o, "proxyAllowlist", jstrings(&s.proxy_allowlist));
    put(&mut o, "directFetchHosts", jstrings(&s.direct_fetch_hosts));
    o
}

/// The settings as a client sees them.
pub fn settings_json(s: &Settings) -> (r: Json)
    ensures
        r@ == settings_value(s@),
{
    let mut o = file_entries(s);
    put(&mut o, "wsOrigins", jstrings(&s.ws_origins));
    put(&mut o, "proxyAllowPrivate", jstrings(&s.proxy_allow_private));
    Json::Object(o)
}

/// The text of the settings file. It reads back as the members it was made of.
pub fn persisted_text(s: &Settings) -> (r: String)
    ensures
        r@ == crate::json::json_pretty(JsonView::Object(file_members(s@))),
        parsed_json(r@) == Some(JsonView::Object(file_members(s@))),
{
    let j = Json::Object(file_entries(s));
    proof {
        lemma_file_reads_back(s@);
    }
    to_pretty(&j)
}

proof fn lemma_strings_read_back(v: Seq<Text>)
    ensures
        reads_back(strings_json(v), 99),
{
    let a = strings_json(v)->Array_0;
    assert forall|i: int| 0 <= i < a.len() implies reads_back(#[trigger] a[i], 98) by {
        assert(a[i] == JsonView::Str(v[i]));
    }
}

proof fn lemma_file_reads_back(s: SettingsView)
    ensures
        reads_back(JsonView::Object(file_members(s)), 100),
{
    lemma_strings_read_back(s.proxy_allowlist);
    lemma_strings_read_back(s.direct_fetch_hosts);
    reveal_strlit("contentCacheBytes");
    reveal_strlit("inputCacheBytes");
    reveal_strlit("inputCacheTtlMs");
    reveal_strlit("writeCoalesceMs");
    reveal_strlit("maxBodyBytes");
    reveal_strlit("proxyMode");
    reveal_strlit("proxyAllowlist");
    reveal_strlit("directFetchHosts");
    let m = file_members(s);
    assert forall|k: Text| #[trigger] m.contains_key(k) implies reads_back(m[k], 99)
        && !is_reserved_name(k) by {
        lemma_short_name(k);
    }
}

/// The members of the settings file have distinct names.
proof fn lemma_file_member(s: SettingsView)
    ensures
        ({
            let j = JsonView::Object(file_members(s));
            &&& member(j, "proxyMode"@) == Some(JsonView::Str(s.proxy_mode))
            &&& member(j, "contentCacheBytes"@) == Some(JsonView::Int(s.content_cache_bytes as int))
            &&& member(j, "inputCacheBytes"@) == Some(JsonView::Int(s.input_cache_bytes as int))
            &&& member(j, "inputCacheTtlMs"@) == Some(JsonView::Int(s.input_cache_ttl_ms as int))
            &&& member(j, "writeCoalesceMs"@) == Some(JsonView::Int(s.write_coalesce_ms as int))
            &&& member(j, "maxBodyBytes"@) == Some(JsonView::Int(s.max_body_bytes as int))
            &&& member(j, "proxyAllowlist"@) == Some(strings_json(s.proxy_allowlist))
            &&& member(j, "directFetchHosts"@) == Some(strings_json(s.direct_fetch_hosts))
        }),
        member(JsonView::Object(file_members(s)), "wsOrigins"@) is None,
        member(JsonView::Object(file_members(s)), "proxyAllowPrivate"@) is None,
{
    reveal_strlit("contentCacheBytes");
    reveal_strlit("inputCacheBytes");
    reveal_strlit("inputCacheTtlMs");
    reveal_strlit("writeCoalesceMs");
    reveal_strlit("maxBodyBytes");
    reveal_strlit("proxyMode");
    reveal_strlit("proxyAllowlist");
    reveal_strlit("directFetchHosts");
    reveal_strlit("wsOrigins");
    reveal_strlit("proxyAllowPrivate");
    assert("contentCacheBytes"@.len() == 17);
    assert("inputCacheBytes"@.len() == 15);
    assert("inputCacheTtlMs"@.len() == 15);
    assert("writeCoalesceMs"@.len() == 15);
    assert("maxBodyBytes"@.len() == 12);
    assert("proxyMode"@.len() == 9);
    assert("proxyAllowlist"@.len() == 14);
    assert("directFetchHosts"@.len() == 16);
    assert("wsOrigins"@.len() == 9);
    assert("proxyAllowPrivate"@.len() == 17);
    assert("inputCacheBytes"@[10] != "inputCacheTtlMs"@[10]);
    assert("inputCacheBytes"@[0] != "writeCoalesceMs"@[0]);
    assert("inputCacheTtlMs"@[0] != "writeCoalesceMs"@[0]);
    assert("wsOrigins"@[0] != "proxyMode"@[0]);
    assert("proxyAllowPrivate"@[0] != "contentCacheBytes"@[0]);
}

// ---- the state ----

/// What the environment says: `DATA_ROOT`, `WRITE_COALESCE_MS`, `WS_ORIGINS` and
/// `PROXY_ALLOW_PRIVATE_HOSTS`, each where it is set.
pub struct SettingsVars {
    pub data_root: Option<String>,
    pub write_coalesce_ms: Option<String>,
    pub ws_origins: Option<String>,
    pub proxy_allow_private: Option<String>,
}

/// The settings under an environment, before any file: the number of `WRITE_COALESCE_MS` where
/// it is one, and the two lists.
pub open spec fn env_settings(vars: SettingsVars) -> SettingsView {
    SettingsView {
        write_coalesce_ms: match vars.write_coalesce_ms {
            Some(v) => match parse_uint(v@, u64::MAX as nat) {
                Some(n) => n as u64,
                None => 0,
            },
            None => 0,
        },
        ws_origins: match vars.ws_origins {
            Some(v) => list_items(v@, ','),
            None => Seq::empty(),
        },
        proxy_allow_private: match vars.proxy_allow_private {
            Some(v) => list_items(v@, ','),
            None => Seq::empty(),
        },
        ..default_settings()
    }
}

/// The effective settings: the defaults, over them the environment, over it the settings file
/// where it is there and is JSON.
pub open spec fn loaded(vars: SettingsVars, file: Option<JsonView>) -> SettingsView {
    match file {
        Some(j) => merged(env_settings(vars), j).0,
        None => env_settings(vars),
    }
}

/// What a settings file holds.
pub open spec fn file_value(text: Option<&str>) -> Option<JsonView> {
    match text {
        Some(t) => parsed_json(t@),
        None => None,
    }
}

/// Settings that the rules admit: a known proxy mode, a body limit within the backstop, and
/// lists of trimmed texts that are not blank.
pub open spec fn valid(s: SettingsView) -> bool {
    &&& is_proxy_mode(s.proxy_mode)
    &&& 1 <= s.max_body_bytes <= MAX_BODY_BACKSTOP
    &&& clean(s.proxy_allowlist)
    &&& clean(s.direct_fetch_hosts)
}

/// Trimmed texts that are not blank.
pub open spec fn clean(v: Seq<Text>) -> bool {
    forall|i: int| 0 <= i < v.len() ==> (#[trigger] v[i]).len() > 0 && trim(v[i]) == v[i]
}

/// The settings in effect, and the directory that holds the settings file. The settings are
/// always ones that the rules admit.
pub struct SettingsState {
    settings: Settings,
    data_root: String,
}

/// A change that was accepted but is not yet in effect.
pub struct SettingsUpdate {
    settings: Settings,
}

impl SettingsUpdate {
    #[verifier::type_invariant]
    spec fn inv(self) -> bool {
        valid(self.settings@)
    }

    /// The settings after the change.
    pub closed spec fn view(self) -> SettingsView {
        self.settings@
    }

    /// The settings after the change.
    pub fn settings(&self) -> (r: &Settings)
        ensures
            r@ == self@,
            valid(self@),
    {
        proof {
            use_type_invariant(self);
        }
        &self.settings
    }
}

impl SettingsState {
    #[verifier::type_invariant]
    spec fn inv(self) -> bool {
        valid(self.settings@)
    }

    /// The settings in effect.
    pub closed spec fn view(self) -> SettingsView {
        self.settings@
    }

    /// The directory that holds the settings file.
    pub closed spec fn root(self) -> Text {
        self.data_root@
    }

    /// The state under an environment, with the text of the settings file where it is there.
    /// `DATA_ROOT` defaults to `./data`.
    pub fn from_env(vars: &SettingsVars, file: Option<&str>) -> (r: Self)
        ensures
            r@ == loaded(*vars, file_value(file)),
            r.root() == (match vars.data_root {
                Some(d) => d@,
                None => "./data"@,
            }),
    {
        Self::load(data_root_of(vars), vars, file)
    }

    /// The state with a given data directory.
    pub fn load(data_root: String, vars: &SettingsVars, file: Option<&str>) -> (r: Self)
        ensures
            r@ == loaded(*vars, file_value(file)),
            r.root() == data_root@,
    {
        let parsed = match file {
            Some(t) => parse_json(t),
            None => None,
        };
        Self::load_with(data_root, vars, &parsed)
    }

    /// The state with a given data directory and what its settings file holds.
    pub fn load_with(data_root: String, vars: &SettingsVars, file: &Option<Json>) -> (r: Self)
        ensures
            r@ == loaded(
                *vars,
                match *file {
                    Some(j) => Some(j@),
                    None => None,
                },
            ),
            r.root() == data_root@,
    {
        let mut s = Settings::default();
        if let Some(v) = &vars.write_coalesce_ms {
            if let Some(n) = uint_of(&chars_of(v.as_str()), u64::MAX) {
                s.write_coalesce_ms = n;
            }
        }
        if let Some(v) = &vars.ws_origins {
            s.ws_origins = parse_list(v.as_str());
        }
        if let Some(v) = &vars.proxy_allow_private {
            s.proxy_allow_private = parse_list(v.as_str());
        }
        assert(s@ =~= env_settings(*vars));
        proof {
            reveal_strlit("any");
            assert(valid(s@));
        }
        if let Some(j) = file {
            proof {
                law_changes_keep_settings_valid(s@, j@);
            }
            apply_persisted(&mut s, j);
        }
        SettingsState { settings: s, data_root }
    }

    /// A copy of the settings in effect.
    pub fn snapshot(&self) -> (r: Settings)
        ensures
            r@ == self@,
            valid(r@),
    {
        proof {
            use_type_invariant(self);
        }
        self.settings.copied()
    }

    /// The path of the settings file.
    pub fn settings_path(&self) -> (r: String)
        ensures
            r@ == joined(self.root(), "server-settings.json"@),
    {
        settings_file(self.data_root.as_str())
    }

    /// The directory that holds the settings file.
    pub fn data_root(&self) -> (r: &str)
        ensures
            r@ == self.root(),
    {
        self.data_root.as_str()
    }

    /// Accepts a change, or refuses it with 400 and the message of its first invalid member.
    /// The settings in effect stay as they are.
    pub fn propose(&self, body: &Json) -> (r: Result<SettingsUpdate, Failure>)
        ensures
            match r {
                Ok(u) => merged(self@, body@) == (u@, None::<Text>),
                Err(f) => merged(self@, body@).1 is Some && f@ == failure(
                    400,
                    merged(self@, body@).1->0,
                ),
            },
    {
        proof {
            use_type_invariant(self);
            law_changes_keep_settings_valid(self@, body@);
        }
        let mut s = self.snapshot();
        match merge_clean(&mut s, body) {
            Ok(()) => Ok(SettingsUpdate { settings: s }),
            Err(e) => Err(Failure { status: 400, message: e }),
        }
    }

    /// Puts an accepted change into effect, once its file is written.
    pub fn commit(&mut self, update: SettingsUpdate)
        ensures
            final(self)@ == update@,
            final(self).root() == old(self).root(),
    {
        proof {
            use_type_invariant(&update);
        }
        self.settings = update.settings;
    }
}

/// The data directory of an environment.
pub fn data_root_of(vars: &SettingsVars) -> (r: String)
    ensures
        r@ == (match vars.data_root {
            Some(d) => d@,
            None => "./data"@,
        }),
{
    match &vars.data_root {
        Some(d) => d.clone(),
        None => "./data".to_owned(),
    }
}

/// The path of the settings file in a data directory.
pub fn settings_file(data_root: &str) -> (r: String)
    ensures
        r@ == joined(data_root@, "server-settings.json"@),
{
    join(data_root, "server-settings.json")
}

/// The failure of a change whose file could not be written.
pub fn persist_failed(cause: &str) -> (r: Failure)
    ensures
        r@ == failure(500, "failed to persist settings: "@ + cause@),
{
    Failure { status: 500, message: join2("failed to persist settings: ", cause) }
}

// ---- laws ----

/// Two lists with a comma between them read as the items of the one and then those of the other,
/// and the items of a list with commas between them read as the same items.
pub proof fn law_lists_read_item_by_item(a: Text, b: Text)
    ensures
        list_items(a.push(',') + b, ',') == list_items(a, ',') + list_items(b, ','),
        list_items(list_text(list_items(a, ','), ','), ',') == list_items(a, ','),
{
    lemma_list_concat(a, b, ',');
    lemma_list_items(a, ',');
    lemma_list_text(list_items(a, ','), ',');
}

/// No change, whole or broken off, leads from valid settings to invalid ones.
pub proof fn law_changes_keep_settings_valid(s: SettingsView, body: JsonView)
    requires
        valid(s),
    ensures
        valid(merged(s, body).0),
{
    lemma_list_step_valid(body, ListKey::ProxyAllowlist);
    lemma_list_step_valid(body, ListKey::DirectFetchHosts);
}

proof fn lemma_list_step_valid(body: JsonView, key: ListKey)
    ensures
        forall|s: SettingsView| valid(s) ==> valid(#[trigger] list_step(s, body, key).0),
{
    assert forall|s: SettingsView| valid(s) implies valid(#[trigger] list_step(s, body, key).0) by {
        if let Some(v) = member(body, key.name()) {
            if let Some(items) = text_items(v) {
                assert forall|i: int| 0 <= i < items.len() implies (#[trigger] items[i]).len() > 0
                    && trim(items[i]) == items[i] by {
                    let a = v->Array_0;
                    assert(a[i] is Str);
                    lemma_trim_ends(a[i]->Str_0);
                }
            }
        }
    }
}

/// No change touches what comes from the environment only.
pub proof fn law_changes_keep_env_only_settings(s: SettingsView, body: JsonView)
    ensures
        merged(s, body).0.ws_origins == s.ws_origins,
        merged(s, body).0.proxy_allow_private == s.proxy_allow_private,
{
}

/// The settings file never holds what comes from the environment only.
pub proof fn law_env_only_settings_are_not_persisted(s: SettingsView)
    ensures
        member(JsonView::Object(file_members(s)), "wsOrigins"@) is None,
        member(JsonView::Object(file_members(s)), "proxyAllowPrivate"@) is None,
{
    lemma_file_member(s);
}

/// A change without any member changes nothing.
pub proof fn law_empty_change(s: SettingsView)
    ensures
        merged(s, JsonView::Object(Map::empty())) == (s, None::<Text>),
{
}

/// What was written to the settings file is in effect after the next start: every setting but
/// those that the environment alone decides.
pub proof fn law_persisted_settings_are_loaded(s: SettingsView, vars: SettingsVars)
    requires
        valid(s),
    ensures
        loaded(vars, Some(JsonView::Object(file_members(s)))) == (SettingsView {
            ws_origins: env_settings(vars).ws_origins,
            proxy_allow_private: env_settings(vars).proxy_allow_private,
            ..s
        }),
        merged(env_settings(vars), JsonView::Object(file_members(s))).1 is None,
{
    lemma_file_member(s);
    lemma_items_of_clean(s.proxy_allowlist);
    lemma_items_of_clean(s.direct_fetch_hosts);
}

proof fn lemma_items_of_clean(v: Seq<Text>)
    requires
        clean(v),
    ensures
        text_items(strings_json(v)) == Some(v),
{
    let a = strings_json(v)->Array_0;
    assert forall|i: int| 0 <= i < a.len() implies (#[trigger] a[i]) is Str && trim(a[i]->Str_0).len()
        > 0 by {
        assert(a[i] == JsonView::Str(v[i]));
    }
    assert(text_items(strings_json(v))->0 =~= v);
}

// ---- version ----

/// The answer to the version question.
pub open spec fn version_value(version: Text, build: Text, obsidian: Text) -> JsonView {
    JsonView::Object(
        Map::<Text, JsonView>::empty().insert("version"@, JsonView::Str(version)).insert(
            "build"@,
            JsonView::Str(build),
        ).insert("obsidianVersion"@, JsonView::Str(obsidian)),
    )
}

/// An environment text, or what stands in for it.
pub open spec fn text_or(o: Option<Text>, d: Text) -> Text {
    match o {
        Some(t) => t,
        None => d,
    }
}

/// The answer to the version question, from `IGNITE_VERSION`, `IGNITE_BUILD` and
/// `OBSIDIAN_VERSION` where they are set, and the version of the package.
pub fn version_json(
    version: Option<&str>,
    build: Option<&str>,
    obsidian: Option<&str>,
    package: &str,
) -> (r: Json)
    ensures
        r@ == version_value(
            text_or(opt_str(version), package@),
            text_or(opt_str(build), "dev"@),
            text_or(opt_str(obsidian), "1.12.7"@),
        ),
{
    let v = match version {
        Some(v) => v,
        None => package,
    };
    let b = match build {
        Some(b) => b,
        None => "dev",
    };
    let ob = match obsidian {
        Some(x) => x,
        None => "1.12.7",
    };
    let mut o: Vec<(String, Json)> = Vec::new();
    put(&mut o, "version", jstr(v));
    put(&mut o, "build", jstr(b));
    put(&mut o, "obsidianVersion", jstr(ob));
    Json::Object(o)
}

// ---- switching plugins ----

/// The answer to switching a plugin on or off: a vault must be named, and no plugin can be
/// switched.
pub open spec fn toggle_failure(id: Text, body: JsonView) -> FailureView {
    match str_member(body, "vault"@) {
        Some(v) => if v.len() > 0 {
            failure(400, "Unknown plugin: "@ + id)
        } else {
            failure(400, "Missing vault ID"@)
        },
        None => failure(400, "Missing vault ID"@),
    }
}

/// Answers a request to switch a plugin on or off.
pub fn plugin_toggle(id: &str, body: &Json) -> (r: Failure)
    ensures
        r@ == toggle_failure(id@, body@),
{
    let named = match body.get_str("vault") {
        Some(v) => !v.is_empty(),
        None => false,
    };
    if !named {
        return fail(400, "Missing vault ID");
    }
    Failure { status: 400, message: join2("Unknown plugin: ", id) }
}

/// A change whose members are all valid takes effect as a whole: each member sets its own setting
/// to the value given, list items trimmed, and a setting without a member stays.
pub proof fn law_a_valid_change(s: SettingsView, m: Map<Text, JsonView>)
    requires
        m.contains_key("proxyMode"@) ==> (m["proxyMode"@] matches JsonView::Str(t) && (t == "any"@ || t
            == "allowlist"@ || t == "disabled"@)),
        m.contains_key("contentCacheBytes"@) ==> (m["contentCacheBytes"@] matches JsonView::Int(n)
            && 0 <= n <= 18_446_744_073_709_551_615),
        m.contains_key("inputCacheBytes"@) ==> (m["inputCacheBytes"@] matches JsonView::Int(n)
            && 0 <= n <= 18_446_744_073_709_551_615),
        m.contains_key("inputCacheTtlMs"@) ==> (m["inputCacheTtlMs"@] matches JsonView::Int(n)
            && 0 <= n <= 18_446_744_073_709_551_615),
        m.contains_key("writeCoalesceMs"@) ==> (m["writeCoalesceMs"@] matches JsonView::Int(n)
            && 0 <= n <= 18_446_744_073_709_551_615),
        m.contains_key("maxBodyBytes"@) ==> (m["maxBodyBytes"@] matches JsonView::Int(n)
            && 1 <= n <= 524_288_000),
        m.contains_key("proxyAllowlist"@) ==> (m["proxyAllowlist"@] matches JsonView::Array(a)
            && (forall|i: int|
            0 <= i < a.len() ==> (#[trigger] a[i]) is Str && trim(a[i]->Str_0).len() > 0)),
        m.contains_key("directFetchHosts"@) ==> (m["directFetchHosts"@] matches JsonView::Array(a)
            && (forall|i: int|
            0 <= i < a.len() ==> (#[trigger] a[i]) is Str && trim(a[i]->Str_0).len() > 0)),
    ensures
        merged(s, JsonView::Object(m)).1 is None,
        ({
            let t = merged(s, JsonView::Object(m)).0;
            &&& m.contains_key("proxyMode"@) ==> t.proxy_mode == m["proxyMode"@]->Str_0
            &&& !m.contains_key("proxyMode"@) ==> t.proxy_mode == s.proxy_mode
            &&& m.contains_key("contentCacheBytes"@) ==> t.content_cache_bytes as int
                == m["contentCacheBytes"@]->Int_0
            &&& !m.contains_key("contentCacheBytes"@) ==> t.content_cache_bytes == s.content_cache_bytes
            &&& m.contains_key("inputCacheBytes"@) ==> t.input_cache_bytes as int
                == m["inputCacheBytes"@]->Int_0
            &&& !m.contains_key("inputCacheBytes"@) ==> t.input_cache_bytes == s.input_cache_bytes
            &&& m.contains_key("inputCacheTtlMs"@) ==> t.input_cache_ttl_ms as int
                == m["inputCacheTtlMs"@]->Int_0
            &&& !m.contains_key("inputCacheTtlMs"@) ==> t.input_cache_ttl_ms == s.input_cache_ttl_ms
            &&& m.contains_key("writeCoalesceMs"@) ==> t.write_coalesce_ms as int
                == m["writeCoalesceMs"@]->Int_0
            &&& !m.contains_key("writeCoalesceMs"@) ==> t.write_coalesce_ms == s.write_coalesce_ms
            &&& m.contains_key("maxBodyBytes"@) ==> t.max_body_bytes as int
                == m["maxBodyBytes"@]->Int_0
            &&& !m.contains_key("maxBodyBytes"@) ==> t.max_body_bytes == s.max_body_bytes
            &&& m.contains_key("proxyAllowlist"@) ==> t.proxy_allowlist.len()
                == m["proxyAllowlist"@]->Array_0.len() && (forall|i: int|
                0 <= i < t.proxy_allowlist.len() ==> #[trigger] t.proxy_allowlist[i] == trim(
                    m["proxyAllowlist"@]->Array_0[i]->Str_0,
                ))
            &&& !m.contains_key("proxyAllowlist"@) ==> t.proxy_allowlist == s.proxy_allowlist
            &&& m.contains_key("directFetchHosts"@) ==> t.direct_fetch_hosts.len()
                == m["directFetchHosts"@]->Array_0.len() && (forall|i: int|
                0 <= i < t.direct_fetch_hosts.len() ==> #[trigger] t.direct_fetch_hosts[i] == trim(
                    m["directFetchHosts"@]->Array_0[i]->Str_0,
                ))
            &&& !m.contains_key("directFetchHosts"@) ==> t.direct_fetch_hosts == s.direct_fetch_hosts
            &&& t.ws_origins == s.ws_origins && t.proxy_allow_private == s.proxy_allow_private
        }),
{
}

/// A change breaks off at its first invalid member, in a fixed order, with a message that names
/// it. It leaves what the members before that one alone would leave. What is no object changes
/// nothing.
pub proof fn law_an_invalid_change(s: SettingsView, m: Map<Text, JsonView>, j: JsonView)
    ensures
        !(j is Object) ==> merged(s, j) == (s, Some("body must be an object"@)),
        ({
            let mode = !m.contains_key("proxyMode"@) || (m["proxyMode"@] matches JsonView::Str(t) && (t
                == "any"@ || t == "allowlist"@ || t == "disabled"@));
            let content = !m.contains_key("contentCacheBytes"@)
                || (m["contentCacheBytes"@] matches JsonView::Int(n)
                && 0 <= n <= 18_446_744_073_709_551_615);
            let input = !m.contains_key("inputCacheBytes"@)
                || (m["inputCacheBytes"@] matches JsonView::Int(n)
                && 0 <= n <= 18_446_744_073_709_551_615);
            let ttl = !m.contains_key("inputCacheTtlMs"@)
                || (m["inputCacheTtlMs"@] matches JsonView::Int(n)
                && 0 <= n <= 18_446_744_073_709_551_615);
            let coalesce = !m.contains_key("writeCoalesceMs"@)
                || (m["writeCoalesceMs"@] matches JsonView::Int(n)
                && 0 <= n <= 18_446_744_073_709_551_615);
            let body = !m.contains_key("maxBodyBytes"@) || (m["maxBodyBytes"@] matches JsonView::Int(n)
                && 0 <= n <= 18_446_744_073_709_551_615);
            let range = !m.contains_key("maxBodyBytes"@) || (m["maxBodyBytes"@] matches JsonView::Int(n)
                && 1 <= n <= 524_288_000);
            let allow = !m.contains_key("proxyAllowlist"@)
                || (m["proxyAllowlist"@] matches JsonView::Array(a)
                && (forall|i: int|
                0 <= i < a.len() ==> (#[trigger] a[i]) is Str && trim(a[i]->Str_0).len() > 0));
            let direct = !m.contains_key("directFetchHosts"@)
                || (m["directFetchHosts"@] matches JsonView::Array(a)
                && (forall|i: int|
                0 <= i < a.len() ==> (#[trigger] a[i]) is Str && trim(a[i]->Str_0).len() > 0));
            let to_direct = m.remove("directFetchHosts"@);
            let to_allow = to_direct.remove("proxyAllowlist"@);
            let to_body = to_allow.remove("maxBodyBytes"@);
            let to_coalesce = to_body.remove("writeCoalesceMs"@);
            let to_ttl = to_coalesce.remove("inputCacheTtlMs"@);
            let to_input = to_ttl.remove("inputCacheBytes"@);
            let to_content = to_input.remove("contentCacheBytes"@);
            let r = merged(s, JsonView::Object(m));
            &&& !mode ==> r == (s, Some("proxyMode must be one of: any, allowlist, disabled"@))
            &&& mode && !content ==> r == (
                merged(s, JsonView::Object(to_content)).0,
                Some("contentCacheBytes"@ + " must be a non-negative integer"@),
            )
            &&& mode && content && !input ==> r == (
                merged(s, JsonView::Object(to_input)).0,
                Some("inputCacheBytes"@ + " must be a non-negative integer"@),
            )
            &&& mode && content && input && !ttl ==> r == (
                merged(s, JsonView::Object(to_ttl)).0,
                Some("inputCacheTtlMs"@ + " must be a non-negative integer"@),
            )
            &&& mode && content && input && ttl && !coalesce ==> r == (
                merged(s, JsonView::Object(to_coalesce)).0,
                Some("writeCoalesceMs"@ + " must be a non-negative integer"@),
            )
            &&& mode && content && input && ttl && coalesce && !body ==> r == (
                merged(s, JsonView::Object(to_body)).0,
                Some("maxBodyBytes"@ + " must be a non-negative integer"@),
            )
            &&& mode && content && input && ttl && coalesce && body && !range ==> r == (
                merged(s, JsonView::Object(to_body)).0,
                Some("maxBodyBytes must be between 1 and 524288000"@),
            )
            &&& mode && content && input && ttl && coalesce && range && !allow ==> r == (
                merged(s, JsonView::Object(to_allow)).0,
                Some("proxyAllowlist"@ + " must be an array of non-empty strings"@),
            )
            &&& mode && content && input && ttl && coalesce && range && allow && !direct ==> r == (
                merged(s, JsonView::Object(to_direct)).0,
                Some("directFetchHosts"@ + " must be an array of non-empty strings"@),
            )
        }),
{
    reveal_strlit("contentCacheBytes");
    reveal_strlit("inputCacheBytes");
    reveal_strlit("inputCacheTtlMs");
    reveal_strlit("writeCoalesceMs");
    reveal_strlit("maxBodyBytes");
    reveal_strlit("proxyMode");
    reveal_strlit("proxyAllowlist");
    reveal_strlit("directFetchHosts");
    assert("contentCacheBytes"@.len() == 17);
    assert("inputCacheBytes"@.len() == 15);
    assert("inputCacheTtlMs"@.len() == 15);
    assert("writeCoalesceMs"@.len() == 15);
    assert("maxBodyBytes"@.len() == 12);
    assert("proxyMode"@.len() == 9);
    assert("proxyAllowlist"@.len() == 14);
    assert("directFetchHosts"@.len() == 16);
    assert("inputCacheBytes"@[10] != "inputCacheTtlMs"@[10]);
    assert("inputCacheBytes"@[0] != "writeCoalesceMs"@[0]);
    assert("inputCacheTtlMs"@[0] != "writeCoalesceMs"@[0]);
}

/// On the wire every setting stands under its own name with its own value. The settings file has
/// all but the two that the environment alone decides.
pub proof fn law_settings_on_the_wire(s: SettingsView)
    ensures
        settings_value(s) is Object,
        ({
            let o = settings_value(s)->Object_0;
            &&& o.dom() == set![
                "contentCacheBytes"@,
                "inputCacheBytes"@,
                "inputCacheTtlMs"@,
                "writeCoalesceMs"@,
                "maxBodyBytes"@,
                "proxyMode"@,
                "proxyAllowlist"@,
                "directFetchHosts"@,
                "wsOrigins"@,
                "proxyAllowPrivate"@,
            ]
            &&& o["contentCacheBytes"@] == JsonView::Int(s.content_cache_bytes as int)
            &&& o["inputCacheBytes"@] == JsonView::Int(s.input_cache_bytes as int)
            &&& o["inputCacheTtlMs"@] == JsonView::Int(s.input_cache_ttl_ms as int)
            &&& o["writeCoalesceMs"@] == JsonView::Int(s.write_coalesce_ms as int)
            &&& o["maxBodyBytes"@] == JsonView::Int(s.max_body_bytes as int)
            &&& o["proxyMode"@] == JsonView::Str(s.proxy_mode)
            &&& o["proxyAllowlist"@] == strings_json(s.proxy_allowlist)
            &&& o["directFetchHosts"@] == strings_json(s.direct_fetch_hosts)
            &&& o["wsOrigins"@] == strings_json(s.ws_origins)
            &&& o["proxyAllowPrivate"@] == strings_json(s.proxy_allow_private)
        }),
        ({
            let o = file_members(s);
            &&& o.dom() == set![
                "contentCacheBytes"@,
                "inputCacheBytes"@,
                "inputCacheTtlMs"@,
                "writeCoalesceMs"@,
                "maxBodyBytes"@,
                "proxyMode"@,
                "proxyAllowlist"@,
                "directFetchHosts"@,
            ]
            &&& o["contentCacheBytes"@] == JsonView::Int(s.content_cache_bytes as int)
            &&& o["inputCacheBytes"@] == JsonView::Int(s.input_cache_bytes as int)
            &&& o["inputCacheTtlMs"@] == JsonView::Int(s.input_cache_ttl_ms as int)
            &&& o["writeCoalesceMs"@] == JsonView::Int(s.write_coalesce_ms as int)
            &&& o["maxBodyBytes"@] == JsonView::Int(s.max_body_bytes as int)
            &&& o["proxyMode"@] == JsonView::Str(s.proxy_mode)
            &&& o["proxyAllowlist"@] == strings_json(s.proxy_allowlist)
            &&& o["directFetchHosts"@] == strings_json(s.direct_fetch_hosts)
        }),
{
    reveal_strlit("contentCacheBytes");
    reveal_strlit("inputCacheBytes");
    reveal_strlit("inputCacheTtlMs");
    reveal_strlit("writeCoalesceMs");
    reveal_strlit("maxBodyBytes");
    reveal_strlit("proxyMode");
    reveal_strlit("proxyAllowlist");
    reveal_strlit("directFetchHosts");
    reveal_strlit("wsOrigins");
    reveal_strlit("proxyAllowPrivate");
    assert("contentCacheBytes"@.len() == 17);
    assert("inputCacheBytes"@.len() == 15);
    assert("inputCacheTtlMs"@.len() == 15);
    assert("writeCoalesceMs"@.len() == 15);
    assert("maxBodyBytes"@.len() == 12);
    assert("proxyMode"@.len() == 9);
    assert("proxyAllowlist"@.len() == 14);
    assert("directFetchHosts"@.len() == 16);
    assert("wsOrigins"@.len() == 9);
    assert("proxyAllowPrivate"@.len() == 17);
    assert("contentCacheBytes"@[0] != "proxyAllowPrivate"@[0]);
    assert("inputCacheBytes"@[10] != "inputCacheTtlMs"@[10]);
    assert("inputCacheBytes"@[0] != "writeCoalesceMs"@[0]);
    assert("inputCacheTtlMs"@[0] != "writeCoalesceMs"@[0]);
    assert("proxyMode"@[0] != "wsOrigins"@[0]);
    assert(settings_value(s)->Object_0.dom() =~= set![
        "contentCacheBytes"@,
        "inputCacheBytes"@,
        "inputCacheTtlMs"@,
        "writeCoalesceMs"@,
        "maxBodyBytes"@,
        "proxyMode"@,
        "proxyAllowlist"@,
        "directFetchHosts"@,
        "wsOrigins"@,
        "proxyAllowPrivate"@,
    ]);
    assert(file_members(s).dom() =~= set![
        "contentCacheBytes"@,
        "inputCacheBytes"@,
        "inputCacheTtlMs"@,
        "writeCoalesceMs"@,
        "maxBodyBytes"@,
        "proxyMode"@,
        "proxyAllowlist"@,
        "directFetchHosts"@,
    ]);
}

/// Without an environment and a file the caches hold 50 MiB of contents and 200 MiB of inputs for
/// five minutes, bodies have up to 50 MiB, nothing is held back, the proxy takes any request, and
/// every list is empty.
pub proof fn law_default_settings()
    ensures
        ({
            let s = default_settings();
            &&& s.content_cache_bytes == 52_428_800
            &&& s.input_cache_bytes == 209_715_200
            &&& s.input_cache_ttl_ms == 300_000
            &&& s.write_coalesce_ms == 0
            &&& s.max_body_bytes == 52_428_800
            &&& s.proxy_mode == "any"@
            &&& s.proxy_allowlist.len() == 0
            &&& s.direct_fetch_hosts.len() == 0
            &&& s.ws_origins.len() == 0
            &&& s.proxy_allow_private.len() == 0
        }),
{
}

/// The environment sets the write delay, where it is a number, and the two lists that it alone
/// decides; all else is as without it. A file changes these settings as a client would.
pub proof fn law_settings_of_the_environment(vars: SettingsVars, file: JsonView)
    ensures
        ({
            let s = env_settings(vars);
            let d = default_settings();
            &&& vars.write_coalesce_ms is None ==> s.write_coalesce_ms == 0
            &&& vars.write_coalesce_ms is Some ==> (match parse_uint(
                vars.write_coalesce_ms->0@,
                18_446_744_073_709_551_615,
            ) {
                Some(n) => s.write_coalesce_ms as int == n,
                None => s.write_coalesce_ms == 0,
            })
            &&& vars.ws_origins is None ==> s.ws_origins.len() == 0
            &&& vars.ws_origins matches Some(v) ==> s.ws_origins == list_items(v@, ',')
            &&& vars.proxy_allow_private is None ==> s.proxy_allow_private.len() == 0
            &&& vars.proxy_allow_private matches Some(v) ==> s.proxy_allow_private == list_items(
                v@,
                ',',
            )
            &&& s.content_cache_bytes == d.content_cache_bytes && s.input_cache_bytes
                == d.input_cache_bytes && s.input_cache_ttl_ms == d.input_cache_ttl_ms
            &&& s.max_body_bytes == d.max_body_bytes && s.proxy_mode == d.proxy_mode
            &&& s.proxy_allowlist == d.proxy_allowlist && s.direct_fetch_hosts == d.direct_fetch_hosts
            &&& loaded(vars, None) == s
            &&& loaded(vars, Some(file)) == merged(s, file).0
        }),
{
}

/// The settings that the rules admit: one of three proxy modes, bodies of 1 byte to 500 MiB, and
/// lists of texts that are not blank and have no white space around them.
pub proof fn law_valid_settings(s: SettingsView, i: int)
    requires
        valid(s),
    ensures
        s.proxy_mode == "any"@ || s.proxy_mode == "allowlist"@ || s.proxy_mode == "disabled"@,
        1 <= s.max_body_bytes <= 524_288_000,
        0 <= i < s.proxy_allowlist.len() ==> s.proxy_allowlist[i].len() > 0 && trim(
            s.proxy_allowlist[i],
        ) == s.proxy_allowlist[i],
        0 <= i < s.direct_fetch_hosts.len() ==> s.direct_fetch_hosts[i].len() > 0 && trim(
            s.direct_fetch_hosts[i],
        ) == s.direct_fetch_hosts[i],
{
}

/// The answer to the version question has each of the three versions under its own name.
pub proof fn law_versions_on_the_wire(version: Text, build: Text, obsidian: Text)
    ensures
        version_value(version, build, obsidian) is Object,
        ({
            let o = version_value(version, build, obsidian)->Object_0;
            &&& o.dom() == set!["version"@, "build"@, "obsidianVersion"@]
            &&& o["version"@] == JsonView::Str(version)
            &&& o["build"@] == JsonView::Str(build)
            &&& o["obsidianVersion"@] == JsonView::Str(obsidian)
        }),
        text_or(Some(version), build) == version,
        text_or(None, build) == build,
{
    reveal_strlit("version");
    reveal_strlit("build");
    reveal_strlit("obsidianVersion");
    assert("version"@.len() == 7);
    assert("build"@.len() == 5);
    assert("obsidianVersion"@.len() == 15);
    assert(version_value(version, build, obsidian)->Object_0.dom() =~= set![
        "version"@,
        "build"@,
        "obsidianVersion"@,
    ]);
}

/// No plugin is switched: a request that names a vault is told that the plugin is unknown, and
/// one that names none, or an empty one, that the vault is missing.
pub proof fn law_no_plugin_is_switched(id: Text, m: Map<Text, JsonView>, v: Text)
    ensures
        toggle_failure(id, JsonView::Object(m)).status == 400,
        m.contains_key("vault"@) && m["vault"@] == JsonView::Str(v) && v.len() > 0 ==> toggle_failure(
            id,
            JsonView::Object(m),
        ).message == "Unknown plugin: "@ + id,
        m.contains_key("vault"@) && m["vault"@] == JsonView::Str(v) && v.len() == 0 ==> toggle_failure(
            id,
            JsonView::Object(m),
        ).message == "Missing vault ID"@,
        !m.contains_key("vault"@) ==> toggle_failure(id, JsonView::Object(m)).message
            == "Missing vault ID"@,
{
}

/// Settings say what they hold, part by part.
pub proof fn law_what_settings_say(s: Settings, file: Option<&str>)
    ensures
        s@.content_cache_bytes == s.content_cache_bytes,
        s@.input_cache_bytes == s.input_cache_bytes,
        s@.input_cache_ttl_ms == s.input_cache_ttl_ms,
        s@.write_coalesce_ms == s.write_coalesce_ms,
        s@.max_body_bytes == s.max_body_bytes,
        s@.proxy_mode == s.proxy_mode@,
        s@.proxy_allowlist == texts(s.proxy_allowlist@),
        s@.direct_fetch_hosts == texts(s.direct_fetch_hosts@),
        s@.ws_origins == texts(s.ws_origins@),
        s@.proxy_allow_private == texts(s.proxy_allow_private@),
        file matches Some(t) ==> file_value(file) == parsed_json(t@),
        file is None ==> file_value(file) is None,
        message(Ok(())) is None,
{
}

} // verus!
