//! The headless-sync plugin: it signs in, pairs vaults with remote ones, and starts and stops
//! their synchronisation through a command-line program.
//!
//! The program is reached through [`CliRunner`]. The token and the sync states are kept in two
//! files; the caller reads and writes them.

use vstd::prelude::*;

use crate::json::{jopt, json_text, jstr, jstrings, object_view, opt_str_json, put, strings_json, Json, JsonView};
use crate::paths::{join, joined};
use crate::plugins::{channel_message, message_of, ChannelMsg, ChannelMsgView, PluginDescriptor, ServerPlugin};
use crate::registry::VaultRegistry;
use crate::reply::{answer, fail, failure, Failure, FailureView};
use crate::strmap::{lemma_mapped_insert, lemma_mapped_remove, map_of, StrMap};
use crate::text::{char_texts, chars_of, clone_list, clone_opt, has_prefix, is_white, join2, law_trimming, law_words, lemma_split_concat, lemma_split_whole, opt_str, opt_text, prefix_at, split, split_chars, str_eq, string_of, texts, trim, trim_chars, words, words_of, Text};

verus! {

/// The channel on which clients hear of sync states.
pub const CHANNEL: &'static str = "plugin:headless-sync";

// ---- the program ----

/// What a run of the program gave.
pub struct CliOutput {
    pub stdout: String,
    pub code: i32,
}

/// The command-line program.
pub trait CliRunner: Send + Sync {
    /// The installed version, or `None` where the program is not installed.
    fn version(&self) -> Option<String>;

    /// Runs the program with some arguments.
    fn run(&self, args: &[String]) -> std::io::Result<CliOutput>;
}

/// `std::io::Error`, held without a look inside.
#[verifier::external_type_specification]
#[verifier::external_body]
pub struct ExIoError(std::io::Error);

/// `ToString::to_string` of a `std::io::Error`: the message of the error. What it says is up to
/// the system, so nothing is claimed of it.
#[verifier::external_body]
fn error_text(e: std::io::Error) -> (r: String) {
    e.to_string()
}

/// Whether `r` is what a run of the program with these arguments led to: its output where it
/// ran, and an error where it did not.
pub open spec fn ran<C: CliRunner>(cli: &C, args: &[String], r: Result<CliOutput, String>) -> bool {
    exists|outcome: std::io::Result<CliOutput>| #[trigger]
        call_ensures(C::run, (cli, args), outcome) && (match outcome {
            Ok(out) => r == Ok::<CliOutput, String>(out),
            Err(_) => r is Err,
        })
}

/// Runs the program; where it does not run, the error is the message of why.
fn run_cli<C: CliRunner>(cli: &C, args: &Vec<String>) -> (r: Result<CliOutput, String>)
    ensures
        exists|given: &[String]| given@ == args@ && #[trigger] ran(cli, given, r),
{
    let given = args.as_slice();
    let outcome = cli.run(given);
    let r = match outcome {
        Ok(out) => Ok(out),
        Err(e) => Err(error_text(e)),
    };
    assert(ran(cli, given, r));
    r
}

/// The program as it is installed: `IGNITE_OB_CLI` names it, `ob` where that is not set.
pub struct RealCli {
    pub bin: String,
}

impl RealCli {
    /// The program that the environment names.
    pub fn from_env(var: Option<&str>) -> (r: Self)
        ensures
            r.bin@ == (match var {
                Some(v) => v@,
                None => "ob"@,
            }),
    {
        RealCli {
            bin: match var {
                Some(v) => v.to_owned(),
                None => "ob".to_owned(),
            },
        }
    }

    /// The version that a run with `--version` told: its trimmed output, if it succeeded.
    pub fn version_from(success: bool, stdout: &str) -> (r: Option<String>)
        ensures
            opt_text(r) == (if success {
                Some(trim(stdout@))
            } else {
                None
            }),
    {
        if success {
            Some(string_of(&trim_chars(&chars_of(stdout))))
        } else {
            None
        }
    }

    /// What a run gave: a run that was ended by a signal has the code -1.
    pub fn output_from(stdout: String, code: Option<i32>) -> (r: CliOutput)
        ensures
            r.stdout@ == stdout@,
            r.code == (match code {
                Some(c) => c,
                None => -1i32,
            }),
    {
        CliOutput {
            stdout,
            code: match code {
                Some(c) => c,
                None => -1,
            },
        }
    }
}

// ---- the token ----

/// Who is signed in.
#[derive(Debug, Clone, Default)]
pub struct TokenInfo {
    pub token: String,
    pub email: Option<String>,
    pub name: Option<String>,
}

/// What a token says.
pub struct TokenView {
    pub token: Text,
    pub email: Option<Text>,
    pub name: Option<Text>,
}

impl TokenInfo {
    /// What the token says.
    pub open spec fn view(self) -> TokenView {
        TokenView { token: self.token@, email: opt_text(self.email), name: opt_text(self.name) }
    }
}

// ---- sync states ----

/// How a vault is synchronised.
#[derive(Debug, Clone)]
pub struct SyncConfig {
    pub mode: String,
    pub device_name: String,
}

/// The sync state of a vault. The status is `stopped`, `running` or `error`.
#[derive(Debug, Clone)]
pub struct SyncState {
    pub vault_id: String,
    pub remote_vault: String,
    pub remote_vault_name: Option<String>,
    pub status: String,
    pub last_sync: Option<String>,
    pub error: Option<String>,
    pub config: SyncConfig,
}

/// What a sync state says.
pub struct SyncStateView {
    pub vault_id: Text,
    pub remote_vault: Text,
    pub remote_vault_name: Option<Text>,
    pub status: Text,
    pub last_sync: Option<Text>,
    pub error: Option<Text>,
    pub mode: Text,
    pub device_name: Text,
}

impl SyncState {
    /// What the state says.
    pub open spec fn view(self) -> SyncStateView {
        SyncStateView {
            vault_id: self.vault_id@,
            remote_vault: self.remote_vault@,
            remote_vault_name: opt_text(self.remote_vault_name),
            status: self.status@,
            last_sync: opt_text(self.last_sync),
            error: opt_text(self.error),
            mode: self.config.mode@,
            device_name: self.config.device_name@,
        }
    }

    /// A copy.
    fn copied(&self) -> (r: SyncState)
        ensures
            r@ == self@,
    {
        SyncState {
            vault_id: self.vault_id.clone(),
            remote_vault: self.remote_vault.clone(),
            remote_vault_name: clone_opt(&self.remote_vault_name),
            status: self.status.clone(),
            last_sync: clone_opt(&self.last_sync),
            error: clone_opt(&self.error),
            config: SyncConfig {
                mode: self.config.mode.clone(),
                device_name: self.config.device_name.clone(),
            },
        }
    }
}

/// The configuration of a sync state on the wire.
pub open spec fn config_value(mode: Text, device_name: Text) -> JsonView {
    JsonView::Object(
        Map::<Text, JsonView>::empty().insert("mode"@, JsonView::Str(mode)).insert(
            "deviceName"@,
            JsonView::Str(device_name),
        ),
    )
}

/// A sync state on the wire.
pub open spec fn state_value(s: SyncStateView) -> JsonView {
    JsonView::Object(
        Map::<Text, JsonView>::empty().insert("vaultId"@, JsonView::Str(s.vault_id)).insert(
            "remoteVault"@,
            JsonView::Str(s.remote_vault),
        ).insert("remoteVaultName"@, opt_str_json(s.remote_vault_name)).insert(
            "status"@,
            JsonView::Str(s.status),
        ).insert("lastSync"@, opt_str_json(s.last_sync)).insert(
            "error"@,
            opt_str_json(s.error),
        ).insert("config"@, config_value(s.mode, s.device_name)),
    )
}

/// All sync states, by vault.
pub open spec fn states_value(m: Map<Text, SyncStateView>) -> JsonView {
    JsonView::Object(m.map_values(|s: SyncStateView| state_value(s)))
}

/// The sync states of a map.
pub open spec fn state_views(m: Map<Text, SyncState>) -> Map<Text, SyncStateView> {
    m.map_values(|s: SyncState| s@)
}

fn config_json(c: &SyncConfig) -> (r: Json)
    ensures
        r@ == config_value(c.mode@, c.device_name@),
{
    let mut o: Vec<(String, Json)> = Vec::new();
    put(&mut o, "mode", jstr(c.mode.as_str()));
    put(&mut o, "deviceName", jstr(c.device_name.as_str()));
    Json::Object(o)
}

/// A sync state on the wire.
pub fn state_json(s: &SyncState) -> (r: Json)
    ensures
        r@ == state_value(s@),
{
    let mut o: Vec<(String, Json)> = Vec::new();
    put(&mut o, "vaultId", jstr(s.vault_id.as_str()));
    put(&mut o, "remoteVault", jstr(s.remote_vault.as_str()));
    put(&mut o, "remoteVaultName", jopt(&s.remote_vault_name));
    put(&mut o, "status", jstr(s.status.as_str()));
    put(&mut o, "lastSync", jopt(&s.last_sync));
    put(&mut o, "error", jopt(&s.error));
    put(&mut o, "config", config_json(&s.config));
    Json::Object(o)
}

/// All sync states on the wire.
fn states_json(m: &StrMap<SyncState>) -> (r: Json)
    ensures
        r@ == states_value(state_views(m@)),
{
    let n: usize = m.len();
    let ghost all = m.pairs();
    let ghost f = |s: SyncState| state_value(s@);
    let mut o: Vec<(String, Json)> = Vec::new();
    assert(all.take(0) =~= Seq::<(String, SyncState)>::empty());
    assert(map_of(all.take(0)).map_values(f) =~= Map::<Text, JsonView>::empty());
    for i in 0..n
        invariant
            n == all.len(),
            all == m.pairs(),
            f == (|s: SyncState| state_value(s@)),
            object_view(o@) == map_of(all.take(i as int)).map_values(f),
    {
        let s = m.value_at(i);
        put(&mut o, m.key_at(i).as_str(), state_json(s));
        proof {
            assert(all.take(i as int + 1).drop_last() =~= all.take(i as int));
            lemma_mapped_insert(
                map_of(all.take(i as int)),
                f,
                all[i as int].0@,
                all[i as int].1,
            );
        }
    }
    assert(all.take(n as int) =~= all);
    assert(m@.map_values(f) =~= states_value(state_views(m@))->Object_0);
    Json::Object(o)
}

// ---- the plugin ----

/// The path of the token file.
pub fn token_path(dir: &str) -> (r: String)
    ensures
        r@ == joined(dir@, "token.json"@),
{
    join(dir, "token.json")
}

/// The path of the file of sync states.
pub fn states_path(dir: &str) -> (r: String)
    ensures
        r@ == joined(dir@, "sync-states.json"@),
{
    join(dir, "sync-states.json")
}

/// The plugin: who is signed in, the sync state of each vault, and its log.
pub struct HeadlessSync {
    data_dir: String,
    token: Option<TokenInfo>,
    states: StrMap<SyncState>,
    logs: StrMap<Vec<String>>,
}

/// What the plugin says.
#[verifier::ext_equal]
pub struct SyncView {
    pub dir: Text,
    pub token: Option<TokenView>,
    pub states: Map<Text, SyncStateView>,
    pub logs: Map<Text, Seq<Text>>,
}

/// The logs of a map.
pub open spec fn log_views(m: Map<Text, Vec<String>>) -> Map<Text, Seq<Text>> {
    m.map_values(|v: Vec<String>| texts(v@))
}

/// What an optional token says.
pub open spec fn opt_token(t: Option<TokenInfo>) -> Option<TokenView> {
    match t {
        Some(i) => Some(i@),
        None => None,
    }
}

/// What optional sync states say.
pub open spec fn opt_states(o: Option<StrMap<SyncState>>) -> Option<Map<Text, SyncStateView>> {
    match o {
        Some(m) => Some(state_views(m@)),
        None => None,
    }
}

/// The plugin when it starts, given what its two files hold: no states where there are none to
/// be had, and no logs.
pub open spec fn started(
    dir: Text,
    token: Option<TokenView>,
    states: Option<Map<Text, SyncStateView>>,
) -> SyncView {
    SyncView {
        dir,
        token,
        states: match states {
            Some(m) => m,
            None => Map::empty(),
        },
        logs: Map::empty(),
    }
}

/// What a vault is set up with.
pub struct SetupBody {
    pub vault_id: Option<String>,
    pub remote_vault: Option<String>,
    pub remote_vault_name: Option<String>,
    pub vault_password: Option<String>,
    pub device_name: Option<String>,
    pub mode: Option<String>,
}

/// What a remote vault is created with.
pub struct CreateRemoteBody {
    pub name: Option<String>,
    pub encryption: Option<String>,
    pub password: Option<String>,
    pub region: Option<String>,
}

/// The run of the program that a set-up takes, and the sync state that it leads to.
pub struct SetupPlan {
    pub args: Vec<String>,
    pub state: SyncState,
}

/// A text, or what stands in for it.
pub open spec fn or_else(o: Option<String>, d: Text) -> Text {
    match o {
        Some(s) => s@,
        None => d,
    }
}

/// The sync state that a set-up leads to: stopped, never synchronised.
pub open spec fn fresh_state(vault_id: Text, remote_vault: Text, b: SetupBody) -> SyncStateView {
    SyncStateView {
        vault_id,
        remote_vault,
        remote_vault_name: opt_text(b.remote_vault_name),
        status: "stopped"@,
        last_sync: None,
        error: None,
        mode: or_else(b.mode, "bidirectional"@),
        device_name: or_else(b.device_name, "ignis-headless"@),
    }
}

/// Why a set-up is refused, if it is: both vaults must be named, someone must be signed in, and
/// the vault must be known.
pub open spec fn setup_refusal(s: SyncView, reg: VaultRegistry, b: SetupBody) -> Option<
    FailureView,
> {
    if b.vault_id is None || b.remote_vault is None {
        Some(failure(400, "vaultId and remoteVault are required"@))
    } else if s.token is None {
        Some(failure(401, "Not authenticated"@))
    } else if !reg.vaults().contains_key(b.vault_id->0@) {
        Some(failure(404, "Vault not found"@))
    } else {
        None
    }
}

/// The arguments of the run that a set-up takes.
pub open spec fn setup_args(remote_vault: Text) -> Seq<Text> {
    seq!["sync-setup"@, "--vault"@, remote_vault, "--path"@, "."@]
}

/// The plugin with a vault's sync state put in.
pub open spec fn with_state(s: SyncView, id: Text, state: SyncStateView) -> SyncView {
    SyncView { states: s.states.insert(id, state), ..s }
}

/// The answer `{"success": true, "state": state}`.
pub open spec fn state_answer(state: SyncStateView) -> JsonView {
    JsonView::Object(
        Map::<Text, JsonView>::empty().insert("success"@, JsonView::Bool(true)).insert(
            "state"@,
            state_value(state),
        ),
    )
}

/// The answer to a set-up with this sync state, and what the clients of the vault hear of it,
/// given what the run gave.
pub open spec fn setup_answer(state: SyncStateView, outcome: Result<CliOutput, String>) -> Result<
    (JsonView, ChannelMsgView),
    FailureView,
> {
    match outcome {
        Ok(_) => Ok((state_answer(state), status_message(state))),
        Err(e) => Err(failure(500, "setup failed: "@ + e@)),
    }
}

/// The plugin after a set-up with this sync state, given what the run gave.
pub open spec fn after_setup(
    s: SyncView,
    state: SyncStateView,
    outcome: Result<CliOutput, String>,
) -> SyncView {
    match outcome {
        Ok(_) => with_state(s, state.vault_id, state),
        Err(_) => s,
    }
}

/// The answer `{"success": true}`.
pub open spec fn success_value() -> JsonView {
    JsonView::Object(Map::<Text, JsonView>::empty().insert("success"@, JsonView::Bool(true)))
}

/// What the clients of a vault hear of its sync state.
pub open spec fn status_message(state: SyncStateView) -> ChannelMsgView {
    message_of(CHANNEL@, state.vault_id, "sync-status"@, state_value(state))
}

/// A sync state with a new status: a running one has no error.
pub open spec fn with_status(state: SyncStateView, status: Text) -> SyncStateView {
    SyncStateView {
        status,
        error: if status == "running"@ {
            None
        } else {
            state.error
        },
        ..state
    }
}

/// What the answer to a change of a sync state says: the body and the message to the clients.
pub open spec fn change_answer(r: Result<(Json, ChannelMsg), Failure>) -> Result<
    (JsonView, ChannelMsgView),
    FailureView,
> {
    match r {
        Ok((j, m)) => Ok((j@, m@)),
        Err(f) => Err(f@),
    }
}

/// The answer to starting or stopping a vault's synchronisation.
pub open spec fn switched(s: SyncView, vault_id: Option<Text>, status: Text) -> Result<
    (JsonView, ChannelMsgView),
    FailureView,
> {
    match vault_id {
        None => Err(failure(400, "vaultId is required"@)),
        Some(id) => if s.states.contains_key(id) {
            let state = with_status(s.states[id], status);
            Ok((state_answer(state), status_message(state)))
        } else {
            Err(failure(404, "Sync not configured for vault"@))
        },
    }
}

/// The plugin after starting or stopping a vault's synchronisation.
pub open spec fn after_switch(s: SyncView, vault_id: Option<Text>, status: Text) -> SyncView {
    match vault_id {
        Some(id) => if s.states.contains_key(id) {
            with_state(s, id, with_status(s.states[id], status))
        } else {
            s
        },
        None => s,
    }
}

/// The answer `{"success": true}`.
fn success_json() -> (r: Json)
    ensures
        r@ == success_value(),
{
    let mut o: Vec<(String, Json)> = Vec::new();
    put(&mut o, "success", Json::Bool(true));
    Json::Object(o)
}

/// The answer and the message for a sync state.
fn state_reply(state: &SyncState) -> (r: (Json, ChannelMsg))
    ensures
        r.0@ == state_answer(state@),
        r.1@ == status_message(state@),
{
    let mut o: Vec<(String, Json)> = Vec::new();
    put(&mut o, "success", Json::Bool(true));
    put(&mut o, "state", state_json(state));
    let m = channel_message(CHANNEL, state.vault_id.as_str(), "sync-status", state_json(state));
    (Json::Object(o), m)
}

/// The descriptor of the plugin.
pub open spec fn is_descriptor(d: PluginDescriptor) -> bool {
    &&& d.id@ == "headless-sync"@
    &&& d.name@ == "Headless Sync"@
    &&& d.description@ == "Obsidian Sync via the obsidian-headless CLI"@
}

impl HeadlessSync {
    /// What the plugin says.
    pub closed spec fn view(self) -> SyncView {
        SyncView {
            dir: self.data_dir@,
            token: opt_token(self.token),
            states: state_views(self.states@),
            logs: log_views(self.logs@),
        }
    }

    /// The plugin with the token and the sync states that its files hold. No token where its file
    /// is missing or not well formed, and no states where theirs is.
    pub fn new(data_dir: &str, token: Option<TokenInfo>, states: Option<StrMap<SyncState>>) -> (r:
        Self)
        ensures
            r@ == started(data_dir@, opt_token(token), opt_states(states)),
    {
        let states = match states {
            Some(m) => m,
            None => {
                let none: StrMap<SyncState> = StrMap::new();
                assert(state_views(none@) =~= Map::<Text, SyncStateView>::empty());
                none
            },
        };
        let r = HeadlessSync { data_dir: data_dir.to_owned(), token, states, logs: StrMap::new() };
        assert(r@.logs =~= Map::<Text, Seq<Text>>::empty());
        r
    }

    /// What a client is told of the plugin.
    pub fn descriptor(&self) -> (r: PluginDescriptor)
        ensures
            is_descriptor(r),
    {
        PluginDescriptor {
            id: "headless-sync".to_owned(),
            name: "Headless Sync".to_owned(),
            description: "Obsidian Sync via the obsidian-headless CLI".to_owned(),
        }
    }

    /// The directory of the two files.
    pub fn data_dir(&self) -> (r: &str)
        ensures
            r@ == self@.dir,
    {
        self.data_dir.as_str()
    }

    /// Whether someone is signed in.
    pub fn authenticated(&self) -> (r: bool)
        ensures
            r == (self@.token is Some),
    {
        self.token.is_some()
    }

    /// The token that its file is to hold, or `None` where there is to be no such file.
    pub fn token(&self) -> (r: Option<&TokenInfo>)
        ensures
            r is Some <==> self@.token is Some,
            r matches Some(t) ==> self@.token == Some(t@),
    {
        self.token.as_ref()
    }

    /// The sync states that their file is to hold, by vault.
    pub fn states(&self) -> (r: &StrMap<SyncState>)
        ensures
            state_views(r@) == self@.states,
    {
        &self.states
    }

    /// Whether the program is installed, and who is signed in.
    pub fn status(&self, version: &Option<String>) -> (r: Json)
        ensures
            r@ == status_value(opt_text(*version), self@.token),
    {
        let (email, name) = match &self.token {
            Some(t) => (jopt(&t.email), jopt(&t.name)),
            None => (Json::Null, Json::Null),
        };
        let mut o: Vec<(String, Json)> = Vec::new();
        put(&mut o, "installed", Json::Bool(version.is_some()));
        put(&mut o, "version", jopt(version));
        put(&mut o, "authenticated", Json::Bool(self.token.is_some()));
        put(&mut o, "email", email);
        put(&mut o, "name", name);
        Json::Object(o)
    }

    /// Signs in: a token is needed.
    pub fn login(&mut self, token: Option<String>, email: Option<String>, name: Option<String>) -> (r:
        Result<Json, Failure>)
        ensures
            match token {
                Some(t) => if t@.len() > 0 {
                    answer(r) == Ok::<JsonView, FailureView>(success_value()) && final(self)@ == (
                    SyncView {
                        token: Some(
                            TokenView { token: t@, email: opt_text(email), name: opt_text(name) },
                        ),
                        ..old(self)@
                    })
                } else {
                    answer(r) == Err::<JsonView, FailureView>(failure(400, "Token is required"@))
                        && final(self)@ == old(self)@
                },
                None => answer(r) == Err::<JsonView, FailureView>(
                    failure(400, "Token is required"@),
                ) && final(self)@ == old(self)@,
            },
    {
        match token {
            Some(t) => if t.as_str().is_empty() {
                Err(fail(400, "Token is required"))
            } else {
                self.token = Some(TokenInfo { token: t, email, name });
                Ok(success_json())
            },
            None => Err(fail(400, "Token is required")),
        }
    }

    /// Signs out.
    pub fn logout(&mut self) -> (r: Json)
        ensures
            r@ == success_value(),
            final(self)@ == (SyncView { token: None, ..old(self)@ }),
    {
        self.token = None;
        success_json()
    }

    /// The run and the sync state of a set-up, or why it is refused.
    pub fn plan_setup(&self, reg: &VaultRegistry, b: &SetupBody) -> (r: Result<SetupPlan, Failure>)
        ensures
            match setup_refusal(self@, *reg, *b) {
                Some(f) => r matches Err(e) && e@ == f,
                None => r matches Ok(p) && texts(p.args@) == setup_args(b.remote_vault->0@)
                    && p.state@ == fresh_state(b.vault_id->0@, b.remote_vault->0@, *b),
            },
    {
        let (vault_id, remote_vault) = match (&b.vault_id, &b.remote_vault) {
            (Some(v), Some(r)) => (v, r),
            _ => {
                return Err(fail(400, "vaultId and remoteVault are required"));
            },
        };
        if self.token.is_none() {
            return Err(fail(401, "Not authenticated"));
        }
        if !reg.contains(vault_id.as_str()) {
            return Err(fail(404, "Vault not found"));
        }
        let mut args: Vec<String> = Vec::new();
        args.push("sync-setup".to_owned());
        args.push("--vault".to_owned());
        args.push(remote_vault.clone());
        args.push("--path".to_owned());
        args.push(".".to_owned());
        assert(texts(args@) =~= setup_args(remote_vault@));
        let mode = match &b.mode {
            Some(m) => m.clone(),
            None => "bidirectional".to_owned(),
        };
        let device_name = match &b.device_name {
            Some(d) => d.clone(),
            None => "ignis-headless".to_owned(),
        };
        let state = SyncState {
            vault_id: vault_id.clone(),
            remote_vault: remote_vault.clone(),
            remote_vault_name: clone_opt(&b.remote_vault_name),
            status: "stopped".to_owned(),
            last_sync: None,
            error: None,
            config: SyncConfig { mode, device_name },
        };
        Ok(SetupPlan { args, state })
    }

    /// Ends a set-up, given what the run gave: where the program ran, the sync state is put in.
    pub fn finish_setup(&mut self, state: SyncState, outcome: &Result<CliOutput, String>) -> (r:
        Result<(Json, ChannelMsg), Failure>)
        ensures
            change_answer(r) == setup_answer(state@, *outcome),
            final(self)@ == after_setup(old(self)@, state@, *outcome),
            r is Ok <==> outcome is Ok,
            r is Err ==> final(self)@ == old(self)@,
            r is Ok ==> final(self)@.states == old(self)@.states.insert(state@.vault_id, state@),
            final(self)@.token == old(self)@.token,
            final(self)@.logs == old(self)@.logs,
            final(self)@.dir == old(self)@.dir,
    {
        match outcome {
            Err(e) => Err(
                Failure { status: 500, message: join2("setup failed: ", e.as_str()) },
            ),
            Ok(_) => {
                let reply = state_reply(&state);
                self.put_state(state);
                Ok(reply)
            },
        }
    }

    /// Sets up a vault: the program is run where nothing stands against it.
    pub fn setup<C: CliRunner>(&mut self, cli: &C, reg: &VaultRegistry, b: &SetupBody) -> (r: Result<
        (Json, ChannelMsg),
        Failure,
    >)
        ensures
            match setup_refusal(old(self)@, *reg, *b) {
                Some(f) => change_answer(r) == Err::<(JsonView, ChannelMsgView), FailureView>(f)
                    && final(self)@ == old(self)@,
                None => {
                    let state = fresh_state(b.vault_id->0@, b.remote_vault->0@, *b);
                    exists|given: &[String], o: Result<CliOutput, String>| #[trigger]
                        ran(cli, given, o) && texts(given@) == setup_args(b.remote_vault->0@)
                            && change_answer(r) == setup_answer(state, o) && final(self)@
                            == after_setup(old(self)@, state, o)
                },
            },
            r is Err ==> final(self)@ == old(self)@,
            r is Ok ==> b.vault_id is Some && b.remote_vault is Some && ({
                let id = b.vault_id->0@;
                let now = final(self)@.states;
                &&& now.contains_key(id)
                &&& now[id].vault_id == id
                &&& now[id].remote_vault == b.remote_vault->0@
                &&& now[id].remote_vault_name == opt_text(b.remote_vault_name)
                &&& now[id].status == "stopped"@
                &&& now[id].last_sync is None && now[id].error is None
                &&& b.mode matches Some(m) ==> now[id].mode == m@
                &&& b.mode is None ==> now[id].mode == "bidirectional"@
                &&& b.device_name matches Some(d) ==> now[id].device_name == d@
                &&& b.device_name is None ==> now[id].device_name == "ignis-headless"@
                &&& now.remove(id) == old(self)@.states.remove(id)
            }),
            final(self)@.token == old(self)@.token,
            final(self)@.logs == old(self)@.logs,
    {
        let plan = match self.plan_setup(reg, b) {
            Ok(p) => p,
            Err(f) => {
                return Err(f);
            },
        };
        let outcome = run_cli(cli, &plan.args);
        let r = self.finish_setup(plan.state, &outcome);
        assert(self@.states.remove(b.vault_id->0@) =~= old(self)@.states.remove(b.vault_id->0@));
        r
    }

    /// Puts in the sync state of a vault.
    fn put_state(&mut self, state: SyncState)
        ensures
            final(self)@ == with_state(old(self)@, state@.vault_id, state@),
    {
        let id = state.vault_id.clone();
        proof {
            lemma_mapped_insert(self.states@, |s: SyncState| s@, id@, state);
        }
        self.states.insert(id, state);
        assert(self@ =~= with_state(old(self)@, state@.vault_id, state@));
    }

    /// Changes the status of a vault's synchronisation, where it is set up, and returns the new
    /// state.
    pub fn set_status(&mut self, vault_id: &str, status: &str) -> (r: Option<SyncState>)
        ensures
            r is Some <==> old(self)@.states.contains_key(vault_id@),
            r matches Some(s) ==> s@ == with_status(old(self)@.states[vault_id@], status@),
            final(self)@ == after_switch(old(self)@, Some(vault_id@), status@),
    {
        let mut state = match self.states.get(vault_id) {
            Some(s) => s.copied(),
            None => {
                return None;
            },
        };
        state.status = status.to_owned();
        if str_eq(status, "running") {
            state.error = None;
        }
        let copy = state.copied();
        proof {
            lemma_mapped_insert(self.states@, |s: SyncState| s@, vault_id@, state);
        }
        self.states.insert(vault_id.to_owned(), state);
        assert(self@ =~= after_switch(old(self)@, Some(vault_id@), status@));
        Some(copy)
    }

    /// Starts or stops the synchronisation of a vault.
    fn switch(&mut self, vault_id: Option<&str>, status: &str) -> (r: Result<
        (Json, ChannelMsg),
        Failure,
    >)
        ensures
            change_answer(r) == switched(old(self)@, opt_str(vault_id), status@),
            final(self)@ == after_switch(old(self)@, opt_str(vault_id), status@),
    {
        match vault_id {
            None => Err(fail(400, "vaultId is required")),
            Some(id) => match self.set_status(id, status) {
                Some(state) => Ok(state_reply(&state)),
                None => Err(fail(404, "Sync not configured for vault")),
            },
        }
    }

    /// Starts the synchronisation of a vault.
    pub fn start(&mut self, vault_id: Option<&str>) -> (r: Result<(Json, ChannelMsg), Failure>)
        ensures
            change_answer(r) == switched(old(self)@, opt_str(vault_id), "running"@),
            final(self)@ == after_switch(old(self)@, opt_str(vault_id), "running"@),
            r is Err ==> final(self)@ == old(self)@,
            r is Ok ==> vault_id is Some && final(self)@.states.contains_key(vault_id->0@) && final(
                self)@.states[vault_id->0@].status == "running"@,
    {
        self.switch(vault_id, "running")
    }

    /// Stops the synchronisation of a vault.
    pub fn stop(&mut self, vault_id: Option<&str>) -> (r: Result<(Json, ChannelMsg), Failure>)
        ensures
            change_answer(r) == switched(old(self)@, opt_str(vault_id), "stopped"@),
            final(self)@ == after_switch(old(self)@, opt_str(vault_id), "stopped"@),
            r is Err ==> final(self)@ == old(self)@,
            r is Ok ==> vault_id is Some && final(self)@.states.contains_key(vault_id->0@) && final(
                self)@.states[vault_id->0@].status == "stopped"@,
    {
        self.switch(vault_id, "stopped")
    }

    /// Forgets the synchronisation of a vault, its log with it.
    pub fn unlink(&mut self, vault_id: Option<&str>) -> (r: Result<Json, Failure>)
        ensures
            match vault_id {
                None => answer(r) == Err::<JsonView, FailureView>(
                    failure(400, "vaultId is required"@),
                ) && final(self)@ == old(self)@,
                Some(id) => answer(r) == Ok::<JsonView, FailureView>(success_value()) && final(self)@
                    == unlinked(old(self)@, id@),
            },
    {
        let id = match vault_id {
            Some(id) => id,
            None => {
                return Err(fail(400, "vaultId is required"));
            },
        };
        proof {
            lemma_mapped_remove(self.states@, |s: SyncState| s@, id@);
            lemma_mapped_remove(self.logs@, |v: Vec<String>| texts(v@), id@);
        }
        self.states.remove(id);
        self.logs.remove(id);
        assert(self@ =~= unlinked(old(self)@, id@));
        Ok(success_json())
    }

    /// The last lines of a vault's log: 100 where no number is given.
    pub fn logs(&self, vault_id: Option<&str>, limit: Option<usize>) -> (r: Result<Json, Failure>)
        ensures
            answer(r) == (match vault_id {
                None => Err::<JsonView, FailureView>(failure(400, "vaultId is required"@)),
                Some(id) => Ok::<JsonView, FailureView>(
                    logs_value(
                        log_tail(
                            self@,
                            id@,
                            match limit {
                                Some(n) => n as nat,
                                None => 100,
                            },
                        ),
                    ),
                ),
            }),
    {
        let id = match vault_id {
            Some(id) => id,
            None => {
                return Err(fail(400, "vaultId is required"));
            },
        };
        let n: usize = match limit {
            Some(n) => n,
            None => 100,
        };
        let lines = match self.logs.get(id) {
            Some(v) => last_lines(v, n),
            None => {
                let v: Vec<String> = Vec::new();
                assert(texts(v@) =~= Seq::<Text>::empty());
                v
            },
        };
        let mut o: Vec<(String, Json)> = Vec::new();
        put(&mut o, "logs", jstrings(&lines));
        Ok(Json::Object(o))
    }

    /// The sync states of all vaults.
    pub fn vaults(&self) -> (r: Json)
        ensures
            r@ == JsonView::Object(
                Map::<Text, JsonView>::empty().insert("vaults"@, states_value(self@.states)),
            ),
    {
        let mut o: Vec<(String, Json)> = Vec::new();
        put(&mut o, "vaults", states_json(&self.states));
        Json::Object(o)
    }

    /// The arguments of the run that creates a remote vault, or why it is refused.
    pub fn plan_create_remote(&self, b: &CreateRemoteBody) -> (r: Result<Vec<String>, Failure>)
        ensures
            match create_refusal(self@, *b) {
                Some(f) => r matches Err(e) && e@ == f,
                None => r matches Ok(a) && texts(a@) == create_args(*b),
            },
    {
        let name = match &b.name {
            Some(n) => n,
            None => {
                return Err(fail(400, "name is required"));
            },
        };
        if name.as_str().is_empty() {
            return Err(fail(400, "name is required"));
        }
        if self.token.is_none() {
            return Err(fail(401, "Not authenticated"));
        }
        let mut args: Vec<String> = Vec::new();
        args.push("sync-create-remote".to_owned());
        args.push("--name".to_owned());
        args.push(name.clone());
        assert(texts(args@) =~= seq!["sync-create-remote"@, "--name"@, name@]);
        push_flag(&mut args, "--encryption", &b.encryption);
        push_flag(&mut args, "--password", &b.password);
        push_flag(&mut args, "--region", &b.region);
        Ok(args)
    }

    /// Creates a remote vault: the program is run where nothing stands against it.
    pub fn create_remote_vault<C: CliRunner>(&self, cli: &C, b: &CreateRemoteBody) -> (r: Result<
        Json,
        Failure,
    >)
        ensures
            match create_refusal(self@, *b) {
                Some(f) => answer(r) == Err::<JsonView, FailureView>(f),
                None => exists|given: &[String], o: Result<CliOutput, String>| #[trigger]
                    ran(cli, given, o) && texts(given@) == create_args(*b) && answer(r)
                        == creation_answer(o),
            },
    {
        let args = match self.plan_create_remote(b) {
            Ok(a) => a,
            Err(f) => {
                return Err(f);
            },
        };
        let outcome = run_cli(cli, &args);
        finish_create_remote(&outcome)
    }

    /// The arguments of the run that lists the remote vaults, or why it is refused.
    pub fn plan_remote_vaults(&self) -> (r: Result<Vec<String>, Failure>)
        ensures
            match r {
                Ok(a) => self@.token is Some && texts(a@) == seq!["sync-list-remote"@],
                Err(f) => self@.token is None && f@ == failure(401, "Not authenticated"@),
            },
    {
        if self.token.is_none() {
            return Err(fail(401, "Not authenticated"));
        }
        let mut args: Vec<String> = Vec::new();
        args.push("sync-list-remote".to_owned());
        assert(texts(args@) =~= seq!["sync-list-remote"@]);
        Ok(args)
    }

    /// Lists the remote vaults: the program is run where someone is signed in.
    pub fn remote_vaults<C: CliRunner>(&self, cli: &C) -> (r: Result<Json, Failure>)
        ensures
            self@.token is None ==> answer(r) == Err::<JsonView, FailureView>(
                failure(401, "Not authenticated"@),
            ),
            self@.token is Some ==> exists|given: &[String], o: Result<CliOutput, String>|
                #[trigger] ran(cli, given, o) && texts(given@) == seq!["sync-list-remote"@]
                    && answer(r) == list_answer(o),
    {
        let args = match self.plan_remote_vaults() {
            Ok(a) => a,
            Err(f) => {
                return Err(f);
            },
        };
        let outcome = run_cli(cli, &args);
        finish_remote_vaults(&outcome)
    }
}

impl ServerPlugin for HeadlessSync {
    fn descriptor(&self) -> (r: PluginDescriptor)
        ensures
            is_descriptor(r),
    {
        HeadlessSync::descriptor(self)
    }
}

/// What a client is told of the program and of who is signed in.
pub open spec fn status_value(version: Option<Text>, token: Option<TokenView>) -> JsonView {
    let (email, name) = match token {
        Some(t) => (t.email, t.name),
        None => (None, None),
    };
    JsonView::Object(
        Map::<Text, JsonView>::empty().insert("installed"@, JsonView::Bool(version is Some)).insert(
            "version"@,
            opt_str_json(version),
        ).insert("authenticated"@, JsonView::Bool(token is Some)).insert(
            "email"@,
            opt_str_json(email),
        ).insert("name"@, opt_str_json(name)),
    )
}

/// The plugin without a vault's sync state and log.
pub open spec fn unlinked(s: SyncView, id: Text) -> SyncView {
    SyncView { states: s.states.remove(id), logs: s.logs.remove(id), ..s }
}

/// The last `n` of some lines, or all where there are fewer.
pub open spec fn tail(lines: Seq<Text>, n: nat) -> Seq<Text> {
    if lines.len() <= n {
        lines
    } else {
        lines.skip(lines.len() - n)
    }
}

/// The last lines of a vault's log, none where it has no log.
pub open spec fn log_tail(s: SyncView, id: Text, n: nat) -> Seq<Text> {
    if s.logs.contains_key(id) {
        tail(s.logs[id], n)
    } else {
        Seq::empty()
    }
}

/// The answer `{"logs": lines}`.
pub open spec fn logs_value(lines: Seq<Text>) -> JsonView {
    JsonView::Object(Map::<Text, JsonView>::empty().insert("logs"@, strings_json(lines)))
}

/// The last `n` of some lines.
pub fn last_lines(lines: &Vec<String>, n: usize) -> (r: Vec<String>)
    ensures
        texts(r@) == tail(texts(lines@), n as nat),
{
    if lines.len() <= n {
        return clone_list(lines);
    }
    let start: usize = lines.len() - n;
    let mut out: Vec<String> = Vec::new();
    let mut i: usize = start;
    while i < lines.len()
        invariant
            start <= i <= lines@.len(),
            out@.len() == i - start,
            forall|j: int| 0 <= j < out@.len() ==> (#[trigger] out@[j])@ == lines@[start + j]@,
        decreases lines@.len() - i,
    {
        out.push(lines[i].clone());
        i = i + 1;
    }
    assert(texts(out@) =~= tail(texts(lines@), n as nat));
    out
}

// ---- remote vaults ----

/// Why the creation of a remote vault is refused, if it is: a name is needed, and someone must
/// be signed in.
pub open spec fn create_refusal(s: SyncView, b: CreateRemoteBody) -> Option<FailureView> {
    if b.name is None || b.name->0@.len() == 0 {
        Some(failure(400, "name is required"@))
    } else if s.token is None {
        Some(failure(401, "Not authenticated"@))
    } else {
        None
    }
}

/// A flag and its value, where there is one.
pub open spec fn flag(name: Text, value: Option<String>) -> Seq<Text> {
    match value {
        Some(v) => seq![name, v@],
        None => Seq::empty(),
    }
}

/// The arguments of the run that creates a remote vault.
pub open spec fn create_args(b: CreateRemoteBody) -> Seq<Text> {
    seq!["sync-create-remote"@, "--name"@, b.name->0@] + flag("--encryption"@, b.encryption) + flag(
        "--password"@,
        b.password,
    ) + flag("--region"@, b.region)
}

fn push_flag(args: &mut Vec<String>, name: &str, value: &Option<String>)
    ensures
        texts(final(args)@) == texts(old(args)@) + flag(name@, *value),
{
    if let Some(v) = value {
        args.push(name.to_owned());
        args.push(v.clone());
    }
    assert(texts(args@) =~= texts(old(args)@) + flag(name@, *value));
}

/// The answer to creating a remote vault, for each outcome of the run.
pub open spec fn creation_answer(outcome: Result<CliOutput, String>) -> Result<
    JsonView,
    FailureView,
> {
    match outcome {
        Ok(_) => Ok(success_value()),
        Err(e) => Err(failure(500, e@)),
    }
}

/// The answer to creating a remote vault, given what the run gave.
pub fn finish_create_remote(outcome: &Result<CliOutput, String>) -> (r: Result<Json, Failure>)
    ensures
        answer(r) == creation_answer(*outcome),
{
    match outcome {
        Ok(_) => Ok(success_json()),
        Err(e) => Err(fail(500, e.as_str())),
    }
}

/// A word of a line, or what stands in for it.
pub open spec fn word_or(w: Seq<Text>, i: int, d: Text) -> Text {
    if i < w.len() {
        w[i]
    } else {
        d
    }
}

/// A remote vault, from its line: the id, the name or else the id again, and the region.
pub open spec fn remote_entry(line: Text) -> JsonView {
    let w = words(line);
    let id = word_or(w, 0, Seq::empty());
    JsonView::Object(
        Map::<Text, JsonView>::empty().insert("id"@, JsonView::Str(id)).insert(
            "name"@,
            JsonView::Str(word_or(w, 1, id)),
        ).insert("region"@, JsonView::Str(word_or(w, 2, Seq::empty()))),
    )
}

/// The lines that tell of a remote vault: not blank, and not the heading.
pub open spec fn is_vault_line(line: Text) -> bool {
    line.len() > 0 && !has_prefix(line, "Available"@)
}

/// The remote vaults among some lines.
pub open spec fn remote_entries(lines: Seq<Text>) -> Seq<JsonView>
    decreases lines.len(),
{
    if lines.len() == 0 {
        Seq::empty()
    } else {
        let front = remote_entries(lines.drop_last());
        let line = trim(lines.last());
        if is_vault_line(line) {
            front.push(remote_entry(line))
        } else {
            front
        }
    }
}

/// The remote vaults that the program lists.
pub open spec fn listed_vaults(stdout: Text) -> Seq<JsonView> {
    remote_entries(split(trim(stdout), '\n'))
}

/// The answer `{"vaults": list}`.
pub open spec fn remote_value(stdout: Text) -> JsonView {
    JsonView::Object(
        Map::<Text, JsonView>::empty().insert("vaults"@, JsonView::Array(listed_vaults(stdout))),
    )
}

fn entry_json(line: &Vec<char>) -> (r: Json)
    ensures
        r@ == remote_entry(line@),
{
    let w = words_of(line);
    proof {
        assert(char_texts(w@).len() == w@.len());
        assert(forall|i: int| 0 <= i < w@.len() ==> char_texts(w@)[i] == (#[trigger] w@[i])@);
    }
    let empty: String = String::new();
    proof {
        reveal_strlit("");
        assert(empty@ =~= Seq::<char>::empty());
    }
    let id = if w.len() > 0 {
        string_of(&w[0])
    } else {
        empty.clone()
    };
    let name = if w.len() > 1 {
        string_of(&w[1])
    } else {
        id.clone()
    };
    let region = if w.len() > 2 {
        string_of(&w[2])
    } else {
        empty
    };
    let mut o: Vec<(String, Json)> = Vec::new();
    put(&mut o, "id", Json::Str(id));
    put(&mut o, "name", Json::Str(name));
    put(&mut o, "region", Json::Str(region));
    Json::Object(o)
}

/// Reads the remote vaults that the program lists, one line each.
pub fn parse_remote_vaults(stdout: &str) -> (r: Vec<Json>)
    ensures
        crate::json::array_view(r@) == listed_vaults(stdout@),
{
    let lines = split_chars(&trim_chars(&chars_of(stdout)), '\n');
    let heading = chars_of("Available");
    let ghost all = split(trim(stdout@), '\n');
    let mut out: Vec<Json> = Vec::new();
    assert(char_texts(lines@).len() == lines@.len());
    assert(all.take(0) =~= Seq::<Text>::empty());
    for i in 0..lines.len()
        invariant
            char_texts(lines@) == all,
            lines@.len() == all.len(),
            heading@ == "Available"@,
            crate::json::array_view(out@) == remote_entries(all.take(i as int)),
    {
        proof {
            assert(char_texts(lines@)[i as int] == lines@[i as int]@);
            assert(all.take(i as int + 1).drop_last() =~= all.take(i as int));
        }
        let line = trim_chars(&lines[i]);
        assert(line@.skip(0) =~= line@);
        if line.len() > 0 && !prefix_at(&line, 0, &heading) {
            let j = entry_json(&line);
            proof {
                crate::json::lemma_array_push(out@, j);
            }
            out.push(j);
        }
    }
    assert(all.take(all.len() as int) =~= all);
    out
}

/// The answer to listing the remote vaults, for each outcome of the run.
pub open spec fn list_answer(outcome: Result<CliOutput, String>) -> Result<JsonView, FailureView> {
    match outcome {
        Ok(out) => Ok(remote_value(out.stdout@)),
        Err(e) => Err(failure(500, e@)),
    }
}

/// The answer to listing the remote vaults, given what the run gave.
pub fn finish_remote_vaults(outcome: &Result<CliOutput, String>) -> (r: Result<Json, Failure>)
    ensures
        answer(r) == list_answer(*outcome),
{
    match outcome {
        Ok(out) => {
            let mut o: Vec<(String, Json)> = Vec::new();
            put(&mut o, "vaults", Json::Array(parse_remote_vaults(out.stdout.as_str())));
            Ok(Json::Object(o))
        },
        Err(e) => Err(fail(500, e.as_str())),
    }
}

// ---- laws ----

/// A plugin that starts from the token and the sync states of another one is that other one,
/// but for the logs.
pub proof fn law_a_restart_keeps_token_and_states(s: SyncView)
    ensures
        started(s.dir, s.token, Some(s.states)) == (SyncView { logs: Map::empty(), ..s }),
{
}

/// A vault that was set up is stopped, runs after it is started, is stopped again after it is
/// stopped, and is unknown after it is unlinked. No other vault is touched.
pub proof fn law_sync_transitions(s: SyncView, id: Text, state: SyncStateView, other: Text)
    requires
        other != id,
        state.status == "stopped"@,
    ensures
        ({
            let a = with_state(s, id, state);
            let b = after_switch(a, Some(id), "running"@);
            let c = after_switch(b, Some(id), "stopped"@);
            let d = unlinked(c, id);
            &&& a.states[id].status == "stopped"@
            &&& b.states[id].status == "running"@ && b.states[id].error is None
            &&& c.states[id] == (SyncStateView { error: None, ..state })
            &&& !d.states.contains_key(id) && !d.logs.contains_key(id)
            &&& d.states.contains_key(other) <==> s.states.contains_key(other)
            &&& s.states.contains_key(other) ==> d.states[other] == s.states[other]
            &&& d.token == s.token
        }),
{
    reveal_strlit("running");
    reveal_strlit("stopped");
    assert("running"@[0] != "stopped"@[0]);
}

/// Nothing can be set up and no remote vault created or listed while nobody is signed in.
pub proof fn law_signing_in_comes_first(s: SyncView, reg: VaultRegistry, b: SetupBody, c: CreateRemoteBody)
    requires
        s.token is None,
    ensures
        setup_refusal(s, reg, b) is Some,
        create_refusal(s, c) is Some,
{
}

/// A set-up for which the program ran leaves its own sync state with the vault, whatever state was
/// there before, and answers with that state; every other vault, the token and the logs stay. One
/// for which it did not run changes nothing and says why.
pub proof fn law_the_last_setup_counts(
    s: SyncView,
    state: SyncStateView,
    out: CliOutput,
    e: String,
    other: Text,
)
    ensures
        ({
            let now = after_setup(s, state, Ok(out));
            &&& now.states.contains_key(state.vault_id) && now.states[state.vault_id] == state
            &&& other != state.vault_id ==> (now.states.contains_key(other)
                <==> s.states.contains_key(other))
            &&& other != state.vault_id && s.states.contains_key(other) ==> now.states[other]
                == s.states[other]
            &&& now.token == s.token && now.logs == s.logs && now.dir == s.dir
        }),
        after_setup(s, state, Err(e)) == s,
        setup_answer(state, Ok(out)) matches Ok((j, m)) && j is Object && j->Object_0.dom() == set![
            "success"@,
            "state"@,
        ] && j->Object_0["success"@] == JsonView::Bool(true) && j->Object_0["state"@] == state_value(
            state,
        ) && m.vault == state.vault_id,
        setup_answer(state, Err(e)) matches Err(f) && f.status == 500 && f.message
            == "setup failed: "@ + e@,
{
    reveal_strlit("success");
    reveal_strlit("state");
    assert("success"@.len() == 7);
    assert("state"@.len() == 5);
    assert(state_answer(state)->Object_0.dom() =~= set!["success"@, "state"@]);
}

/// A set-up asks for a vault and a remote vault first, then for someone who is signed in, then for
/// a vault that is known; only where all is there does nothing stand against it.
pub proof fn law_what_stands_against_a_setup(s: SyncView, reg: VaultRegistry, b: SetupBody)
    ensures
        b.vault_id is None || b.remote_vault is None ==> (setup_refusal(s, reg, b) matches Some(f)
            && f.status == 400 && f.message == "vaultId and remoteVault are required"@),
        b.vault_id is Some && b.remote_vault is Some && s.token is None ==> (setup_refusal(s, reg, b)
            matches Some(f) && f.status == 401 && f.message == "Not authenticated"@),
        b.vault_id is Some && b.remote_vault is Some && s.token is Some
            && !reg.vaults().contains_key(b.vault_id->0@) ==> (setup_refusal(s, reg, b) matches Some(
            f,
        ) && f.status == 404 && f.message == "Vault not found"@),
        b.vault_id is Some && b.remote_vault is Some && s.token is Some
            && reg.vaults().contains_key(b.vault_id->0@) ==> setup_refusal(s, reg, b) is None,
{
}

/// A set-up runs the program on the remote vault, in the directory it stands in. Two remote vaults
/// make two runs that differ in one argument.
pub proof fn law_setup_names_the_remote_vault(remote: Text)
    ensures
        setup_args(remote).len() == 5,
        setup_args(remote)[0] == "sync-setup"@,
        setup_args(remote)[1] == "--vault"@,
        setup_args(remote)[2] == remote,
        setup_args(remote)[3] == "--path"@,
        setup_args(remote)[4] == "."@,
{
}

/// A set-up leads to a state that names both vaults as they were given, is stopped, was never
/// synchronised and has no error; mode and device name are those given, or else the usual ones.
pub proof fn law_a_fresh_state(vault: Text, remote: Text, b: SetupBody)
    ensures
        ({
            let s = fresh_state(vault, remote, b);
            &&& s.vault_id == vault
            &&& s.remote_vault == remote
            &&& b.remote_vault_name matches Some(n) ==> s.remote_vault_name == Some(n@)
            &&& b.remote_vault_name is None ==> s.remote_vault_name is None
            &&& s.status == "stopped"@
            &&& s.last_sync is None
            &&& s.error is None
            &&& b.mode matches Some(m) ==> s.mode == m@
            &&& b.mode is None ==> s.mode == "bidirectional"@
            &&& b.device_name matches Some(d) ==> s.device_name == d@
            &&& b.device_name is None ==> s.device_name == "ignis-headless"@
        }),
{
}

/// Starting or stopping changes the status of that vault alone. An error is forgotten when it
/// starts and kept when it stops; all else of the state, every other vault, the token and the logs
/// stay. The answer and the message carry the state as it then is.
pub proof fn law_switching_changes_the_status(s: SyncView, id: Text, status: Text, other: Text)
    requires
        s.states.contains_key(id),
    ensures
        ({
            let now = after_switch(s, Some(id), status);
            let was = s.states[id];
            let is_now = now.states[id];
            &&& now.states.contains_key(id)
            &&& is_now.status == status
            &&& status == "running"@ ==> is_now.error is None
            &&& status != "running"@ ==> is_now.error == was.error
            &&& is_now.vault_id == was.vault_id && is_now.remote_vault == was.remote_vault
            &&& is_now.remote_vault_name == was.remote_vault_name && is_now.last_sync == was.last_sync
            &&& is_now.mode == was.mode && is_now.device_name == was.device_name
            &&& other != id ==> (now.states.contains_key(other) <==> s.states.contains_key(other))
            &&& other != id && s.states.contains_key(other) ==> now.states[other] == s.states[other]
            &&& now.token == s.token && now.logs == s.logs && now.dir == s.dir
            &&& switched(s, Some(id), status) matches Ok((j, m)) && j is Object
                && j->Object_0["success"@] == JsonView::Bool(true) && j->Object_0["state"@]
                == state_value(is_now) && m == status_message(is_now)
        }),
{
    reveal_strlit("success");
    reveal_strlit("state");
    assert("success"@.len() == 7);
    assert("state"@.len() == 5);
}

/// A vault that is not set up is neither started nor stopped, and none is where none is named.
pub proof fn law_switching_needs_a_setup(s: SyncView, id: Text, status: Text)
    requires
        !s.states.contains_key(id),
    ensures
        after_switch(s, Some(id), status) == s,
        after_switch(s, None, status) == s,
        switched(s, Some(id), status) matches Err(f) && f.status == 404 && f.message
            == "Sync not configured for vault"@,
        switched(s, None, status) matches Err(f) && f.status == 400 && f.message
            == "vaultId is required"@,
{
}

/// Unlinking forgets the state and the log of that vault and of no other.
pub proof fn law_unlinking_forgets_one_vault(s: SyncView, id: Text, other: Text)
    ensures
        ({
            let now = unlinked(s, id);
            &&& !now.states.contains_key(id) && !now.logs.contains_key(id)
            &&& other != id ==> (now.states.contains_key(other) <==> s.states.contains_key(other))
            &&& other != id ==> (now.logs.contains_key(other) <==> s.logs.contains_key(other))
            &&& other != id && s.states.contains_key(other) ==> now.states[other] == s.states[other]
            &&& other != id && s.logs.contains_key(other) ==> now.logs[other] == s.logs[other]
            &&& now.token == s.token && now.dir == s.dir
        }),
{
}

/// On the wire a sync state has each of its parts under its own name, null where it has none.
pub proof fn law_a_sync_state_on_the_wire(s: SyncStateView)
    ensures
        state_value(s) is Object,
        ({
            let o = state_value(s)->Object_0;
            &&& o.dom() == set![
                "vaultId"@,
                "remoteVault"@,
                "remoteVaultName"@,
                "status"@,
                "lastSync"@,
                "error"@,
                "config"@,
            ]
            &&& o["vaultId"@] == JsonView::Str(s.vault_id)
            &&& o["remoteVault"@] == JsonView::Str(s.remote_vault)
            &&& s.remote_vault_name matches Some(n) ==> o["remoteVaultName"@] == JsonView::Str(n)
            &&& s.remote_vault_name is None ==> o["remoteVaultName"@] == JsonView::Null
            &&& o["status"@] == JsonView::Str(s.status)
            &&& s.last_sync matches Some(t) ==> o["lastSync"@] == JsonView::Str(t)
            &&& s.last_sync is None ==> o["lastSync"@] == JsonView::Null
            &&& s.error matches Some(e) ==> o["error"@] == JsonView::Str(e)
            &&& s.error is None ==> o["error"@] == JsonView::Null
            &&& o["config"@] is Object
            &&& o["config"@]->Object_0.dom() == set!["mode"@, "deviceName"@]
            &&& o["config"@]->Object_0["mode"@] == JsonView::Str(s.mode)
            &&& o["config"@]->Object_0["deviceName"@] == JsonView::Str(s.device_name)
        }),
{
    reveal_strlit("vaultId");
    reveal_strlit("remoteVault");
    reveal_strlit("remoteVaultName");
    reveal_strlit("status");
    reveal_strlit("lastSync");
    reveal_strlit("error");
    reveal_strlit("config");
    reveal_strlit("mode");
    reveal_strlit("deviceName");
    assert("vaultId"@.len() == 7);
    assert("remoteVault"@.len() == 11);
    assert("remoteVaultName"@.len() == 15);
    assert("status"@.len() == 6);
    assert("lastSync"@.len() == 8);
    assert("error"@.len() == 5);
    assert("config"@.len() == 6);
    assert("mode"@.len() == 4);
    assert("deviceName"@.len() == 10);
    assert("status"@[0] != "config"@[0]);
    assert(state_value(s)->Object_0.dom() =~= set![
        "vaultId"@,
        "remoteVault"@,
        "remoteVaultName"@,
        "status"@,
        "lastSync"@,
        "error"@,
        "config"@,
    ]);
    assert(config_value(s.mode, s.device_name)->Object_0.dom() =~= set!["mode"@, "deviceName"@]);
}

/// The listing of sync states has one for every vault that is set up, and that vault's own.
pub proof fn law_listed_states(m: Map<Text, SyncStateView>, id: Text)
    ensures
        states_value(m) is Object,
        states_value(m)->Object_0.contains_key(id) <==> m.contains_key(id),
        m.contains_key(id) ==> states_value(m)->Object_0[id] == state_value(m[id]),
{
}

/// The clients of a vault hear of its sync state on the channel of the plugin, as a `sync-status`
/// that carries the state.
pub proof fn law_who_hears_of_a_state(s: SyncStateView)
    ensures
        status_message(s).vault == s.vault_id,
        status_message(s).channel == "plugin:headless-sync"@,
        exists|j: JsonView| #[trigger]
            json_text(j) == status_message(s).json && j is Object && j->Object_0.dom() == set![
                "channel"@,
                "type"@,
                "payload"@,
            ] && j->Object_0["channel"@] == JsonView::Str("plugin:headless-sync"@)
                && j->Object_0["type"@] == JsonView::Str("sync-status"@) && j->Object_0["payload"@]
                == state_value(s),
{
    reveal_strlit("channel");
    reveal_strlit("type");
    reveal_strlit("payload");
    assert("channel"@.len() == 7);
    assert("type"@.len() == 4);
    assert("payload"@.len() == 7);
    assert("channel"@[0] != "payload"@[0]);
    let j = crate::plugins::wire_value(CHANNEL@, "sync-status"@, state_value(s));
    assert(j->Object_0.dom() =~= set!["channel"@, "type"@, "payload"@]);
    assert(json_text(j) == status_message(s).json);
}

/// The status tells whether the program is installed and in which version, and whether someone is
/// signed in and who.
pub proof fn law_the_status(version: Option<Text>, token: Option<TokenView>)
    ensures
        status_value(version, token) is Object,
        ({
            let o = status_value(version, token)->Object_0;
            &&& o.dom() == set!["installed"@, "version"@, "authenticated"@, "email"@, "name"@]
            &&& o["installed"@] == JsonView::Bool(version is Some)
            &&& version matches Some(v) ==> o["version"@] == JsonView::Str(v)
            &&& version is None ==> o["version"@] == JsonView::Null
            &&& o["authenticated"@] == JsonView::Bool(token is Some)
            &&& token is Some && token->0.email is Some ==> o["email"@] == JsonView::Str(
                token->0.email->0,
            )
            &&& token is None || token->0.email is None ==> o["email"@] == JsonView::Null
            &&& token is Some && token->0.name is Some ==> o["name"@] == JsonView::Str(
                token->0.name->0,
            )
            &&& token is None || token->0.name is None ==> o["name"@] == JsonView::Null
        }),
{
    reveal_strlit("installed");
    reveal_strlit("version");
    reveal_strlit("authenticated");
    reveal_strlit("email");
    reveal_strlit("name");
    assert("installed"@.len() == 9);
    assert("version"@.len() == 7);
    assert("authenticated"@.len() == 13);
    assert("email"@.len() == 5);
    assert("name"@.len() == 4);
    assert(status_value(version, token)->Object_0.dom() =~= set![
        "installed"@,
        "version"@,
        "authenticated"@,
        "email"@,
        "name"@,
    ]);
}

/// The tail of a log is its last lines in their order: as many as were asked for, or all.
pub proof fn law_the_tail_of_a_log(front: Seq<Text>, last: Seq<Text>, n: nat)
    ensures
        tail(front + last, last.len()) == last,
        last.len() <= n ==> tail(last, n) == last,
        tail(front, 0).len() == 0,
{
    if front.len() > 0 {
        assert((front + last).skip(front.len() as int) =~= last);
    } else {
        assert(front + last =~= last);
    }
}

/// A log is told of the vault that was asked for, and a vault without a log has an empty one.
pub proof fn law_logs_by_vault(s: SyncView, id: Text, n: nat)
    ensures
        s.logs.contains_key(id) && s.logs[id].len() <= n ==> log_tail(s, id, n) == s.logs[id],
        !s.logs.contains_key(id) ==> log_tail(s, id, n).len() == 0,
        logs_value(log_tail(s, id, n)) is Object,
        logs_value(log_tail(s, id, n))->Object_0["logs"@] is Array,
        logs_value(log_tail(s, id, n))->Object_0["logs"@]->Array_0.len() == log_tail(s, id, n).len(),
        forall|i: int|
            0 <= i < log_tail(s, id, n).len() ==> #[trigger] logs_value(
                log_tail(s, id, n),
            )->Object_0["logs"@]->Array_0[i] == JsonView::Str(log_tail(s, id, n)[i]),
{
}

/// A remote vault needs a name first and someone who is signed in next.
pub proof fn law_what_stands_against_a_remote_vault(s: SyncView, b: CreateRemoteBody)
    ensures
        b.name is None || b.name->0@.len() == 0 ==> (create_refusal(s, b) matches Some(f) && f.status
            == 400 && f.message == "name is required"@),
        b.name is Some && b.name->0@.len() > 0 && s.token is None ==> (create_refusal(s, b) matches Some(
            f,
        ) && f.status == 401 && f.message == "Not authenticated"@),
        b.name is Some && b.name->0@.len() > 0 && s.token is Some ==> create_refusal(s, b) is None,
{
}

/// The run that creates a remote vault names it, and then each of encryption, password and region
/// that was given, in this order, each value behind its own flag.
pub proof fn law_creation_passes_on_what_was_given(b: CreateRemoteBody)
    ensures
        ({
            let a = create_args(b);
            let e: int = if b.encryption is Some {
                2
            } else {
                0
            };
            let p: int = if b.password is Some {
                2
            } else {
                0
            };
            let g: int = if b.region is Some {
                2
            } else {
                0
            };
            &&& a.len() == 3 + e + p + g
            &&& a[0] == "sync-create-remote"@ && a[1] == "--name"@ && a[2] == b.name->0@
            &&& b.encryption matches Some(x) ==> a[3] == "--encryption"@ && a[4] == x@
            &&& b.password matches Some(x) ==> a[3 + e] == "--password"@ && a[4 + e] == x@
            &&& b.region matches Some(x) ==> a[3 + e + p] == "--region"@ && a[4 + e + p] == x@
        }),
{
}

/// Creating and listing remote vaults succeed where the program ran; where it did not, the answer
/// is 500 with what it said.
pub proof fn law_answers_follow_the_run(out: CliOutput, e: String)
    ensures
        creation_answer(Ok(out)) matches Ok(j) && j is Object && j->Object_0.dom() == set!["success"@]
            && j->Object_0["success"@] == JsonView::Bool(true),
        creation_answer(Err(e)) matches Err(f) && f.status == 500 && f.message == e@,
        list_answer(Ok(out)) matches Ok(j) && j is Object && j->Object_0.dom() == set!["vaults"@]
            && j->Object_0["vaults"@] == JsonView::Array(listed_vaults(out.stdout@)),
        list_answer(Err(e)) matches Err(f) && f.status == 500 && f.message == e@,
{
    assert(success_value()->Object_0.dom() =~= set!["success"@]);
    assert(remote_value(out.stdout@)->Object_0.dom() =~= set!["vaults"@]);
}

/// A line of three words tells the id, the name and the region of a remote vault; one of two
/// leaves the region empty; one of one word has the id for a name too. White space parts the words
/// and more words are passed over.
pub proof fn law_a_line_tells_a_remote_vault(id: Text, name: Text, region: Text, rest: Text, w: char)
    requires
        is_white(w),
        id.len() > 0,
        name.len() > 0,
        region.len() > 0,
        forall|i: int| 0 <= i < id.len() ==> !is_white(#[trigger] id[i]),
        forall|i: int| 0 <= i < name.len() ==> !is_white(#[trigger] name[i]),
        forall|i: int| 0 <= i < region.len() ==> !is_white(#[trigger] region[i]),
    ensures
        ({
            let o = remote_entry(
                id.push(w) + (name.push(w) + (region.push(w) + rest)),
            )->Object_0;
            &&& o.dom() == set!["id"@, "name"@, "region"@]
            &&& o["id"@] == JsonView::Str(id)
            &&& o["name"@] == JsonView::Str(name)
            &&& o["region"@] == JsonView::Str(region)
        }),
        ({
            let o = remote_entry(id.push(w) + name)->Object_0;
            &&& o["id"@] == JsonView::Str(id)
            &&& o["name"@] == JsonView::Str(name)
            &&& o["region"@] == JsonView::Str(Seq::empty())
        }),
        ({
            let o = remote_entry(id)->Object_0;
            &&& o["id"@] == JsonView::Str(id)
            &&& o["name"@] == JsonView::Str(id)
            &&& o["region"@] == JsonView::Str(Seq::empty())
        }),
{
    reveal_strlit("id");
    reveal_strlit("name");
    reveal_strlit("region");
    assert("id"@.len() == 2);
    assert("name"@.len() == 4);
    assert("region"@.len() == 6);
    law_words(region, w, rest);
    law_words(name, w, region.push(w) + rest);
    law_words(id, w, name.push(w) + (region.push(w) + rest));
    law_words(id, w, name);
    let line = id.push(w) + (name.push(w) + (region.push(w) + rest));
    assert(words(line) =~= seq![id, name, region] + words(rest));
    assert(words(id.push(w) + name) =~= seq![id, name]);
    assert(remote_entry(line)->Object_0.dom() =~= set!["id"@, "name"@, "region"@]);
}

/// Two parts of a listing with a line end between them tell the remote vaults of the one and then
/// those of the other. A single line tells its vault, unless it begins with `Available`.
pub proof fn law_a_listing_line_by_line(a: Text, b: Text)
    requires
        a.len() > 0,
        b.len() > 0,
        !is_white(a[0]),
        !is_white(a.last()),
        !is_white(b[0]),
        !is_white(b.last()),
    ensures
        listed_vaults(a.push('\n') + b) == listed_vaults(a) + listed_vaults(b),
        !a.contains('\n') ==> listed_vaults(a) == (if a.len() >= 9 && a.take(9) == "Available"@ {
            Seq::empty()
        } else {
            seq![remote_entry(a)]
        }),
{
    let e = Seq::<char>::empty();
    let t = a.push('\n') + b;
    law_trimming(e, a, e);
    law_trimming(e, b, e);
    law_trimming(e, t, e);
    assert(e + a + e =~= a && e + b + e =~= b && e + t + e =~= t);
    assert(t[0] == a[0] && t.last() == b.last());
    lemma_split_concat(a, b, '\n');
    lemma_entries_concat(split(a, '\n'), split(b, '\n'));
    if !a.contains('\n') {
        reveal_with_fuel(remote_entries, 2);
        lemma_split_whole(a, '\n');
        reveal_strlit("Available");
        assert(seq![a].drop_last() =~= Seq::<Text>::empty());
        assert(remote_entries(seq![a]) =~= (if is_vault_line(a) {
            seq![remote_entry(a)]
        } else {
            Seq::empty()
        }));
    }
}

proof fn lemma_entries_concat(p: Seq<Text>, q: Seq<Text>)
    ensures
        remote_entries(p + q) == remote_entries(p) + remote_entries(q),
    decreases q.len(),
{
    if q.len() > 0 {
        lemma_entries_concat(p, q.drop_last());
        assert((p + q).drop_last() =~= p + q.drop_last());
        assert((p + q).last() == q.last());
        assert(remote_entries(p + q) =~= remote_entries(p) + remote_entries(q));
    } else {
        assert(p + q =~= p);
        assert(remote_entries(p + q) =~= remote_entries(p) + remote_entries(q));
    }
}

/// Blank lines between the lines of a listing, and white space around a line, change nothing.
pub proof fn law_a_listing_skips_white_space(a: Text, x: Text, b: Text)
    requires
        a.len() > 0,
        b.len() > 0,
        !is_white(a[0]),
        !is_white(a.last()),
        !is_white(b[0]),
        !is_white(b.last()),
        forall|i: int| 0 <= i < x.len() ==> is_white(#[trigger] x[i]),
        !x.contains('\n'),
    ensures
        listed_vaults(a.push('\n') + x.push('\n') + b) == listed_vaults(a.push('\n') + b),
{
    reveal_with_fuel(remote_entries, 2);
    let e = Seq::<char>::empty();
    let t = a.push('\n') + b;
    let u = (a.push('\n') + x).push('\n') + b;
    assert(a.push('\n') + x.push('\n') + b =~= u);
    law_trimming(e, t, e);
    law_trimming(e, u, e);
    law_trimming(x, b, e);
    assert(e + t + e =~= t && e + u + e =~= u);
    assert(u[0] == a[0] && u.last() == b.last());
    assert(t[0] == a[0] && t.last() == b.last());
    lemma_split_concat(a, b, '\n');
    lemma_split_concat(a, x, '\n');
    lemma_split_concat(a.push('\n') + x, b, '\n');
    lemma_split_whole(x, '\n');
    let pa = split(a, '\n');
    lemma_entries_concat(pa, split(b, '\n'));
    lemma_entries_concat(pa + seq![x], split(b, '\n'));
    assert((pa + seq![x]).drop_last() =~= pa);
    assert(trim(x).len() == 0);
}

/// Where a run can only lead to one output, that output is what it is taken for; where it can only
/// fail, it is taken for a failure.
pub proof fn law_a_run_is_taken_for_what_it_was<C: CliRunner>(
    cli: &C,
    args: &[String],
    out: CliOutput,
    r: Result<CliOutput, String>,
)
    requires
        ran(cli, args, r),
    ensures
        (forall|o: std::io::Result<CliOutput>| #[trigger]
            call_ensures(C::run, (cli, args), o) ==> o == Ok::<CliOutput, std::io::Error>(out)) ==> r
            == Ok::<CliOutput, String>(out),
        (forall|o: std::io::Result<CliOutput>| #[trigger]
            call_ensures(C::run, (cli, args), o) ==> o is Err) ==> r is Err,
{
}

/// The plugin is known by one id, which its channel carries behind `plugin:`.
pub proof fn law_the_plugin_and_its_channel(d: PluginDescriptor)
    requires
        is_descriptor(d),
    ensures
        CHANNEL@ == "plugin:"@ + d.id@,
        d.id@ == "headless-sync"@,
        d.name@ == "Headless Sync"@,
        d.description@ == "Obsidian Sync via the obsidian-headless CLI"@,
{
    reveal_strlit("plugin:headless-sync");
    reveal_strlit("plugin:");
    reveal_strlit("headless-sync");
    assert("plugin:"@ + "headless-sync"@ =~= "plugin:headless-sync"@);
}

/// A token and a sync state say what they hold, part by part.
pub proof fn law_what_states_and_tokens_say(t: TokenInfo, s: SyncState)
    ensures
        t@.token == t.token@,
        t.email matches Some(e) ==> t@.email == Some(e@),
        t.email is None ==> t@.email is None,
        t.name matches Some(n) ==> t@.name == Some(n@),
        t.name is None ==> t@.name is None,
        s@.vault_id == s.vault_id@,
        s@.remote_vault == s.remote_vault@,
        s.remote_vault_name matches Some(n) ==> s@.remote_vault_name == Some(n@),
        s.remote_vault_name is None ==> s@.remote_vault_name is None,
        s@.status == s.status@,
        s.last_sync matches Some(l) ==> s@.last_sync == Some(l@),
        s.last_sync is None ==> s@.last_sync is None,
        s.error matches Some(e) ==> s@.error == Some(e@),
        s.error is None ==> s@.error is None,
        s@.mode == s.config.mode@,
        s@.device_name == s.config.device_name@,
{
}

/// The states and the logs of vaults are told vault by vault, and an answer says its own body and
/// message, or its own failure.
pub proof fn law_what_maps_and_answers_say(
    m: Map<Text, SyncState>,
    l: Map<Text, Vec<String>>,
    k: Text,
    t: Option<TokenInfo>,
    r: Result<(Json, ChannelMsg), Failure>,
)
    ensures
        state_views(m).contains_key(k) <==> m.contains_key(k),
        m.contains_key(k) ==> state_views(m)[k] == m[k]@,
        log_views(l).contains_key(k) <==> l.contains_key(k),
        l.contains_key(k) ==> log_views(l)[k] == texts(l[k]@),
        t matches Some(i) ==> opt_token(t) == Some(i@),
        t is None ==> opt_token(t) is None,
        r matches Ok((j, c)) ==> change_answer(r) == Ok::<(JsonView, ChannelMsgView), FailureView>(
            (j@, c@),
        ),
        r matches Err(f) ==> (change_answer(r) matches Err(g) && g.status == f.status && g.message
            == f.message@),
{
}

/// The plugin starts with the directory, the token and the states that it is given, or no states,
/// and without logs.
pub proof fn law_a_start(
    dir: Text,
    token: Option<TokenView>,
    states: Map<Text, SyncStateView>,
    k: Text,
)
    ensures
        started(dir, token, Some(states)).dir == dir,
        started(dir, token, Some(states)).token == token,
        started(dir, token, Some(states)).states == states,
        !started(dir, token, Some(states)).logs.contains_key(k),
        started(dir, token, None).dir == dir,
        started(dir, token, None).token == token,
        !started(dir, token, None).states.contains_key(k),
        !started(dir, token, None).logs.contains_key(k),
{
}

} // verus!
