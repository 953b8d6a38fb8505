use ignite_server::headless_sync::{
    finish_create_remote, finish_remote_vaults, last_lines, parse_remote_vaults, states_path,
    token_path, CliOutput, CliRunner, CreateRemoteBody, HeadlessSync, RealCli, SetupBody, SyncConfig,
    SyncState, TokenInfo, CHANNEL,
};
use ignite_server::json::to_value;
use ignite_server::plugins::ServerPlugin;
use ignite_server::registry::{VaultRegistry, WalkedItem};
use ignite_server::strmap::StrMap;

struct FakeCli {
    version: Option<String>,
}

impl CliRunner for FakeCli {
    fn version(&self) -> Option<String> {
        self.version.clone()
    }
    fn run(&self, _args: &[String]) -> std::io::Result<CliOutput> {
        Ok(CliOutput { stdout: "vault-a MyVault us-east\n".into(), code: 0 })
    }
}

struct BrokenCli;

impl CliRunner for BrokenCli {
    fn version(&self) -> Option<String> {
        None
    }
    fn run(&self, _args: &[String]) -> std::io::Result<CliOutput> {
        Err(std::io::Error::new(std::io::ErrorKind::NotFound, "no such program"))
    }
}

/// Keeps the arguments of every run.
struct RecordingCli {
    runs: std::sync::Mutex<Vec<String>>,
}

impl CliRunner for RecordingCli {
    fn version(&self) -> Option<String> {
        None
    }
    fn run(&self, args: &[String]) -> std::io::Result<CliOutput> {
        self.runs.lock().unwrap().push(args.join(" "));
        Ok(CliOutput { stdout: String::new(), code: 0 })
    }
}

fn reg() -> VaultRegistry {
    VaultRegistry::discover("/vaults", &vec![WalkedItem { name: "Games".to_string(), path: "/vaults/Games".to_string(), is_dir: true, found: vec![] }])
}

fn cli() -> FakeCli {
    FakeCli { version: Some("ob 1.2.3".into()) }
}

fn plugin() -> HeadlessSync {
    HeadlessSync::new("/data/headless-sync", None, None)
}

fn signed_in() -> HeadlessSync {
    let mut hs = plugin();
    assert!(hs.login(Some("t".to_string()), None, None).is_ok());
    hs
}

fn setup(vault: Option<&str>, remote: Option<&str>) -> SetupBody {
    SetupBody {
        vault_id: vault.map(|v| v.to_string()),
        remote_vault: remote.map(|r| r.to_string()),
        remote_vault_name: None,
        vault_password: None,
        device_name: None,
        mode: None,
    }
}

fn remote(name: Option<&str>) -> CreateRemoteBody {
    CreateRemoteBody { name: name.map(|n| n.to_string()), encryption: None, password: None, region: None }
}

#[test]
fn status_reflects_cli_and_auth_then_login_persists() {
    let mut hs = plugin();
    let j = to_value(&hs.status(&cli().version()));
    assert_eq!(j["installed"], true);
    assert_eq!(j["version"], "ob 1.2.3");
    assert_eq!(j["authenticated"], false);
    assert!(j["email"].is_null());
    assert!(hs.token().is_none());

    let r = hs.login(Some("t".to_string()), Some("a@b.c".to_string()), Some("Ann".to_string()));
    assert_eq!(to_value(&r.ok().unwrap())["success"], true);

    let j = to_value(&hs.status(&None));
    assert_eq!(j["installed"], false);
    assert!(j["version"].is_null());
    assert_eq!(j["authenticated"], true);
    assert_eq!(j["email"], "a@b.c");

    assert_eq!(hs.token().unwrap().token, "t");
    let mut again = HeadlessSync::new("/data", hs.token().cloned(), None);
    let j = to_value(&again.status(&None));
    assert_eq!(j["email"], "a@b.c");
    assert_eq!(j["name"], "Ann");
    assert_eq!(to_value(&again.logout())["success"], true);
    assert!(!again.authenticated());
    assert!(again.token().is_none());
}

#[test]
fn login_requires_token() {
    let mut hs = plugin();
    for t in [None, Some(String::new())] {
        let f = hs.login(t, None, None).err().unwrap();
        assert_eq!((f.status, f.message.as_str()), (400, "Token is required"));
    }
    assert!(!hs.authenticated());
}

#[test]
fn setup_start_stop_transitions_and_vaults_map() {
    let mut hs = signed_in();
    let (j, _) = hs.setup(&cli(), &reg(), &setup(Some("Games"), Some("remote-1"))).ok().unwrap();
    let j = to_value(&j);
    assert_eq!(j["success"], true);
    assert_eq!(j["state"]["status"], "stopped");
    assert_eq!(j["state"]["remoteVault"], "remote-1");
    assert_eq!(j["state"]["config"]["mode"], "bidirectional");
    assert_eq!(j["state"]["config"]["deviceName"], "ignis-headless");
    assert!(j["state"]["remoteVaultName"].is_null());

    let (j, m) = hs.start(Some("Games")).ok().unwrap();
    assert_eq!(to_value(&j)["state"]["status"], "running");
    assert_eq!(m.vault, "Games");
    let (j, _) = hs.stop(Some("Games")).ok().unwrap();
    assert_eq!(to_value(&j)["state"]["status"], "stopped");
    assert_eq!(to_value(&hs.vaults())["vaults"]["Games"]["remoteVault"], "remote-1");

    assert!(hs.unlink(Some("Games")).is_ok());
    assert!(to_value(&hs.vaults())["vaults"].as_object().unwrap().is_empty());
}

#[test]
fn setup_needs_auth_and_known_vault() {
    let mut hs = plugin();
    let f = hs.setup(&cli(), &reg(), &setup(Some("Games"), Some("r"))).err().unwrap();
    assert_eq!((f.status, f.message.as_str()), (401, "Not authenticated"));
    let mut hs = signed_in();
    let f = hs.setup(&cli(), &reg(), &setup(Some("Nope"), Some("r"))).err().unwrap();
    assert_eq!((f.status, f.message.as_str()), (404, "Vault not found"));
    for b in [setup(None, Some("r")), setup(Some("Games"), None)] {
        let f = hs.setup(&cli(), &reg(), &b).err().unwrap();
        assert_eq!((f.status, f.message.as_str()), (400, "vaultId and remoteVault are required"));
    }
    let f = hs.setup(&BrokenCli, &reg(), &setup(Some("Games"), Some("r"))).err().unwrap();
    assert_eq!((f.status, f.message.as_str()), (500, "setup failed: no such program"));
    assert!(to_value(&hs.vaults())["vaults"].as_object().unwrap().is_empty());
}

#[test]
fn setup_runs_the_program_with_the_remote_vault() {
    let hs = signed_in();
    let mut b = setup(Some("Games"), Some("remote-1"));
    b.mode = Some("pull".to_string());
    b.device_name = Some("box".to_string());
    b.remote_vault_name = Some("Remote".to_string());
    let plan = hs.plan_setup(&reg(), &b).ok().unwrap();
    assert_eq!(plan.args.join(" "), "sync-setup --vault remote-1 --path .");
    assert_eq!(plan.state.config.mode, "pull");
    assert_eq!(plan.state.config.device_name, "box");
    assert_eq!(plan.state.remote_vault_name, Some("Remote".to_string()));
    assert_eq!(plan.state.last_sync, None);
}

#[test]
fn sync_states_are_kept() {
    let mut hs = signed_in();
    let mut b = setup(Some("Games"), Some("remote-1"));
    b.remote_vault_name = Some("Remote".to_string());
    assert!(hs.setup(&cli(), &reg(), &b).is_ok());
    assert!(hs.start(Some("Games")).is_ok());
    let again = HeadlessSync::new("/d", None, Some(hs.states().clone()));
    assert_eq!(to_value(&again.vaults()), to_value(&hs.vaults()));
    assert_eq!(again.data_dir(), "/d");
    assert_eq!(again.states().len(), 1);
    assert_eq!(again.states().get("Games").unwrap().status, "running");
    let none = HeadlessSync::new("/d", None, None);
    assert!(to_value(&none.vaults())["vaults"].as_object().unwrap().is_empty());
    assert!(!none.authenticated());
    let mut states = StrMap::new();
    states.insert(
        "A".to_string(),
        SyncState {
            vault_id: "A".to_string(),
            remote_vault: "r".to_string(),
            remote_vault_name: None,
            status: "error".to_string(),
            last_sync: None,
            error: Some("e".to_string()),
            config: SyncConfig { mode: "m".to_string(), device_name: "d".to_string() },
        },
    );
    let token = TokenInfo { token: "t".to_string(), ..Default::default() };
    let mut hs = HeadlessSync::new("/d", Some(token), Some(states));
    assert!(hs.authenticated());
    assert_eq!(to_value(&hs.vaults())["vaults"]["A"]["error"], "e");
    let (j, _) = hs.stop(Some("A")).ok().unwrap();
    assert_eq!(to_value(&j)["state"]["error"], "e");
    let (j, _) = hs.start(Some("A")).ok().unwrap();
    assert!(to_value(&j)["state"]["error"].is_null());
}

#[test]
fn start_stop_and_unlink_need_a_vault() {
    let mut hs = signed_in();
    for r in [hs.start(None), hs.stop(None)] {
        let f = r.err().unwrap();
        assert_eq!((f.status, f.message.as_str()), (400, "vaultId is required"));
    }
    for r in [hs.start(Some("Games")), hs.stop(Some("Games"))] {
        let f = r.err().unwrap();
        assert_eq!((f.status, f.message.as_str()), (404, "Sync not configured for vault"));
    }
    assert_eq!(hs.unlink(None).err().unwrap().status, 400);
    assert!(hs.unlink(Some("Games")).is_ok());
}

#[test]
fn remote_vaults_needs_auth_then_parses() {
    let f = plugin().remote_vaults(&cli()).err().unwrap();
    assert_eq!((f.status, f.message.as_str()), (401, "Not authenticated"));
    let j = to_value(&signed_in().remote_vaults(&cli()).ok().unwrap());
    assert_eq!(j["vaults"][0]["id"], "vault-a");
    assert_eq!(j["vaults"][0]["name"], "MyVault");
    assert_eq!(j["vaults"][0]["region"], "us-east");
    let f = signed_in().remote_vaults(&BrokenCli).err().unwrap();
    assert_eq!((f.status, f.message.as_str()), (500, "no such program"));
    let args = signed_in().plan_remote_vaults().ok().unwrap();
    assert_eq!(args, vec!["sync-list-remote".to_string()]);
}

#[test]
fn remote_vault_lines() {
    let found = parse_remote_vaults("\nAvailable vaults:\r\n\n  a \t A  eu extra\r\nb\n Available x\n");
    let v: Vec<serde_json::Value> = found.iter().map(to_value).collect();
    assert_eq!(v.len(), 2);
    assert_eq!(v[0]["id"], "a");
    assert_eq!(v[0]["name"], "A");
    assert_eq!(v[0]["region"], "eu");
    assert_eq!(v[1]["id"], "b");
    assert_eq!(v[1]["name"], "b");
    assert_eq!(v[1]["region"], "");
    assert!(parse_remote_vaults("  \n ").is_empty());
    let none = finish_remote_vaults(&Ok(CliOutput { stdout: String::new(), code: 1 })).ok().unwrap();
    assert!(to_value(&none)["vaults"].as_array().unwrap().is_empty());
}

#[test]
fn each_call_runs_the_program_once() {
    let rec = RecordingCli { runs: std::sync::Mutex::new(Vec::new()) };
    let mut hs = signed_in();
    assert!(hs.setup(&rec, &reg(), &setup(Some("Nope"), Some("r"))).is_err());
    assert!(hs.setup(&rec, &reg(), &setup(Some("Games"), Some("remote-1"))).is_ok());
    assert!(hs.remote_vaults(&rec).is_ok());
    let b = CreateRemoteBody {
        name: Some("N".to_string()),
        encryption: None,
        password: Some("p".to_string()),
        region: None,
    };
    assert!(hs.create_remote_vault(&rec, &b).is_ok());
    assert!(plugin().remote_vaults(&rec).is_err());
    assert_eq!(
        *rec.runs.lock().unwrap(),
        vec![
            "sync-setup --vault remote-1 --path .".to_string(),
            "sync-list-remote".to_string(),
            "sync-create-remote --name N --password p".to_string(),
        ]
    );
}

#[test]
fn remote_vaults_are_created() {
    let mut b = remote(Some("N"));
    assert_eq!(plugin().plan_create_remote(&b).err().unwrap().status, 401);
    let args = signed_in().plan_create_remote(&b).ok().unwrap();
    assert_eq!(args.join(" "), "sync-create-remote --name N");
    b.encryption = Some("e2e".to_string());
    b.password = Some("p".to_string());
    b.region = Some("eu".to_string());
    let args = signed_in().plan_create_remote(&b).ok().unwrap();
    assert_eq!(args.join(" "), "sync-create-remote --name N --encryption e2e --password p --region eu");
    for bad in [remote(None), remote(Some(""))] {
        let f = signed_in().create_remote_vault(&cli(), &bad).err().unwrap();
        assert_eq!((f.status, f.message.as_str()), (400, "name is required"));
    }
    assert!(signed_in().create_remote_vault(&cli(), &b).is_ok());
    assert_eq!(signed_in().create_remote_vault(&BrokenCli, &b).err().unwrap().message, "no such program");
    assert_eq!(finish_create_remote(&Err("x".to_string())).err().unwrap().status, 500);
}

#[test]
fn logs_requires_vault_id() {
    let f = plugin().logs(None, None).err().unwrap();
    assert_eq!((f.status, f.message.as_str()), (400, "vaultId is required"));
    let j = to_value(&plugin().logs(Some("Games"), Some(5)).ok().unwrap());
    assert!(j["logs"].as_array().unwrap().is_empty());
}

#[test]
fn the_last_lines_of_a_log() {
    let lines: Vec<String> = (0..5).map(|i| i.to_string()).collect();
    assert_eq!(last_lines(&lines, 2), vec!["3".to_string(), "4".to_string()]);
    assert_eq!(last_lines(&lines, 9), lines);
    assert!(last_lines(&lines, 0).is_empty());
}

#[test]
fn setup_broadcasts_sync_status_on_channel() {
    let mut hs = signed_in();
    let (_, msg) = hs.setup(&cli(), &reg(), &setup(Some("Games"), Some("r"))).ok().unwrap();
    assert_eq!(msg.channel, CHANNEL);
    assert_eq!(msg.vault, "Games");
    let v: serde_json::Value = serde_json::from_str(&msg.json).unwrap();
    assert_eq!(v["type"], "sync-status");
    assert_eq!(v["payload"]["remoteVault"], "r");
}

#[test]
fn the_plugin_describes_itself() {
    let hs = plugin();
    assert_eq!(hs.descriptor().id, "headless-sync");
    assert_eq!(ServerPlugin::descriptor(&hs).name, "Headless Sync");
    assert_eq!(token_path("/d"), "/d/token.json");
    assert_eq!(states_path("/d/"), "/d/sync-states.json");
}

#[test]
fn the_installed_program() {
    assert_eq!(RealCli::from_env(None).bin, "ob");
    assert_eq!(RealCli::from_env(Some("/usr/bin/ob2")).bin, "/usr/bin/ob2");
    assert_eq!(RealCli::version_from(true, " 1.2\n"), Some("1.2".to_string()));
    assert_eq!(RealCli::version_from(false, "1.2"), None);
    assert_eq!(RealCli::output_from("x".to_string(), None).code, -1);
    assert_eq!(RealCli::output_from("x".to_string(), Some(3)).code, 3);
}
