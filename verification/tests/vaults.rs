use ignite_server::index::{Meta, PathState};
use ignite_server::json::{to_value, Json};
use ignite_server::registry::{VaultRegistry, WalkedItem};
use ignite_server::vault_routes::{
    bootstrap, default_vault, finish_create, finish_remove, finish_rename, fs_tree,
    is_valid_vault_name, node_platform, obsidian_version, plan_create, plan_remove, plan_rename,
    vault_info, vault_list, vault_summary, MakeDir, MoveDir,
};

fn item(name: &str, is_dir: bool, found: Vec<PathState>) -> WalkedItem {
    WalkedItem { name: name.to_string(), path: format!("/vaults/{name}"), is_dir, found }
}

fn file(rel: &str, len: u64) -> PathState {
    PathState {
        rel: Some(rel.to_string()),
        meta: Some(Meta { is_dir: false, len, modified: Some(1), created: None }),
    }
}

fn one_vault() -> VaultRegistry {
    VaultRegistry::discover("/vaults", &vec![item("Games", true, vec![file("a.md", 5)])])
}

fn value(j: Result<Json, u16>) -> serde_json::Value {
    to_value(&j.ok().unwrap())
}

#[test]
fn discovers_vault_subdirs_and_indexes_them() {
    let mut reg = VaultRegistry::discover(
        "/vaults",
        &vec![
            item("Journal", true, vec![]),
            item("README.txt", false, vec![]),
            item("Games", true, vec![file("a.md", 2)]),
        ],
    );
    assert!(reg.get("Games").is_some());
    assert!(reg.get("Journal").is_some());
    assert!(reg.get("README.txt").is_none(), "a file is not a vault");
    assert!(reg.get("Missing").is_none());
    assert_eq!(reg.names(), vec!["Games".to_string(), "Journal".to_string()]);
    assert_eq!(reg.get("Games").unwrap().root(), "/vaults/Games");
    assert!(reg.get("Games").unwrap().tree().contains_key("a.md"));
    assert_eq!(reg.get("Journal").unwrap().tree().len(), 0);
    assert!(reg.reconcile_vault("Games", &vec![file("b.md", 2)]));
    assert!(!reg.get("Games").unwrap().tree().contains_key("a.md"));
    assert!(reg.get("Games").unwrap().tree().contains_key("b.md"));
    assert!(!reg.reconcile_vault("Missing", &vec![]));
}

#[test]
fn insert_and_remove_mutate_the_registry() {
    let mut reg = VaultRegistry::discover("/vaults", &vec![]);
    assert!(reg.names().is_empty());
    assert_eq!(reg.vault_root(), "/vaults");
    reg.insert_vault("New".to_string(), "/vaults/New", &vec![file("n.md", 1)]);
    assert!(reg.get("New").unwrap().tree().contains_key("n.md"));
    assert!(reg.get("New").is_some());
    assert!(reg.contains("New"));
    assert_eq!(reg.names(), vec!["New".to_string()]);
    assert!(reg.remove_vault("New"));
    assert!(reg.get("New").is_none());
    assert!(!reg.remove_vault("New"), "second remove is a no-op");
}

#[test]
fn the_root_of_a_vault_is_the_path_of_its_directory() {
    let mut odd = item("a\u{fffd}", true, vec![file("first", 1)]);
    odd.path = "/elsewhere/a".to_string();
    let items = vec![odd, item("a\u{fffd}", true, vec![file("second", 1)])];
    let reg = VaultRegistry::discover("/vaults", &items);
    assert_eq!(reg.get("a\u{fffd}").unwrap().root(), "/vaults/a\u{fffd}");
    assert!(reg.get("a\u{fffd}").unwrap().tree().contains_key("second"));
    assert!(!reg.get("a\u{fffd}").unwrap().tree().contains_key("first"));
    let mut apart = item("b", true, vec![]);
    apart.path = "/elsewhere/b".to_string();
    let reg = VaultRegistry::discover("/vaults", &vec![apart]);
    assert_eq!(reg.get("b").unwrap().root(), "/elsewhere/b");
    assert!(VaultRegistry::default().names().is_empty());
    assert_eq!(VaultRegistry::default().vault_root(), "");
}

#[test]
fn a_clone_of_an_index_is_its_own() {
    let reg = one_vault();
    let mut copy = reg.get("Games").unwrap().clone();
    assert_eq!(copy.root(), "/vaults/Games");
    assert_eq!(copy.tree().get("a.md").unwrap().size, Some(5));
    copy.apply(&vec![file("b.md", 1)]);
    assert!(copy.tree().contains_key("b.md"));
    assert!(!reg.get("Games").unwrap().tree().contains_key("b.md"));
}

#[test]
fn changes_reach_their_vault_only() {
    let mut reg = VaultRegistry::discover("/vaults", &vec![item("A", true, vec![]), item("B", true, vec![])]);
    assert_eq!(reg.apply_changes("A", &vec![file("x", 1)]).unwrap().len(), 1);
    assert!(reg.get("A").unwrap().tree().contains_key("x"));
    assert!(!reg.get("B").unwrap().tree().contains_key("x"));
    assert!(reg.apply_changes("C", &vec![file("x", 1)]).is_none());
}

#[test]
fn fs_tree_returns_ignis_json_for_a_known_vault() {
    let v = value(fs_tree(&one_vault(), Some("Games")));
    assert_eq!(v["a.md"]["type"], "file");
    assert_eq!(v["a.md"]["size"], 5);
}

#[test]
fn fs_tree_404_for_unknown_vault() {
    assert_eq!(fs_tree(&one_vault(), Some("Nope")).err(), Some(404));
}

#[test]
fn fs_tree_400_when_vault_param_missing() {
    assert_eq!(fs_tree(&one_vault(), None).err(), Some(400));
}

#[test]
fn fs_tree_reflects_a_live_change() {
    let mut reg = one_vault();
    assert!(value(fs_tree(&reg, Some("Games"))).get("z.md").is_none());
    reg.apply_changes("Games", &vec![file("z.md", 5)]);
    assert!(value(fs_tree(&reg, Some("Games"))).get("z.md").is_some());
}

#[test]
fn vault_list_returns_discovered_vaults() {
    let v = to_value(&vault_list(&one_vault()));
    let arr = v.as_array().expect("vault/list is an array");
    assert_eq!(arr.len(), 1);
    assert_eq!(arr[0]["id"], "Games");
    assert_eq!(arr[0]["name"], "Games");
    assert!(arr[0]["path"].as_str().unwrap().contains("Games"));
    assert_eq!(to_value(&vault_summary(&one_vault(), "Nope"))["path"], "");
}

#[test]
fn vault_info_returns_five_fields() {
    let v = value(vault_info(&one_vault(), Some("Games"), "linux", "1.12.7"));
    assert_eq!(v["id"], "Games");
    assert_eq!(v["name"], "Games");
    assert_eq!(v["path"], "/vaults/Games");
    assert_eq!(v["platform"], "linux");
    assert_eq!(v["version"], "1.12.7");
}

#[test]
fn vault_info_defaults_to_first_when_vault_omitted() {
    let mut reg = one_vault();
    reg.insert_vault("Alpha".to_string(), "/vaults/Alpha", &vec![]);
    assert_eq!(value(vault_info(&reg, None, "linux", "1"))["id"], "Alpha");
    assert_eq!(value(vault_info(&one_vault(), None, "linux", "1"))["id"], "Games");
    let empty = VaultRegistry::discover("/vaults", &vec![]);
    assert_eq!(vault_info(&empty, None, "linux", "1").err(), Some(404));
    assert_eq!(default_vault(&empty), None);
}

#[test]
fn vault_info_unknown_vault_404() {
    assert_eq!(vault_info(&one_vault(), Some("Nope"), "linux", "1").err(), Some(404));
}

#[test]
fn bootstrap_returns_the_full_bundle() {
    let v = value(bootstrap(&one_vault(), Some("Games"), "linux", "1.12.7"));
    assert_eq!(v["vault"]["id"], "Games");
    assert!(v["vault"]["platform"].is_string());
    assert!(v["vault"]["version"].is_string());
    assert!(v["vaultList"].is_array());
    assert_eq!(v["vaultList"][0]["name"], "Games");
    assert_eq!(v["tree"]["a.md"]["type"], "file");
    assert_eq!(v["tree"]["a.md"]["size"], 5);
    assert!(v["plugins"].is_array() && v["plugins"].as_array().unwrap().is_empty());
    assert!(v["virtualPlugins"].is_array());
    assert_eq!(v["settings"]["contentCacheBytes"], 52_428_800);
    assert_eq!(v["settings"]["inputCacheBytes"], 209_715_200);
    assert_eq!(v["settings"]["inputCacheTtlMs"], 300_000);
    assert!(v["settings"]["directFetchHosts"].is_array());
}

#[test]
fn bootstrap_unknown_vault_404() {
    assert_eq!(bootstrap(&one_vault(), Some("Nope"), "linux", "1").err(), Some(404));
}

#[test]
fn platforms_and_versions() {
    assert_eq!(node_platform("macos"), "darwin");
    assert_eq!(node_platform("windows"), "win32");
    assert_eq!(node_platform("linux"), "linux");
    assert_eq!(obsidian_version(None), "1.12.7");
    assert_eq!(obsidian_version(Some("2")), "2");
}

#[test]
fn create_makes_a_live_vault() {
    let mut reg = VaultRegistry::discover("/vaults", &vec![]);
    let path = plan_create(&reg, "NewVault").ok().unwrap();
    assert_eq!(path, "/vaults/NewVault");
    let found = vec![file(".obsidian/x", 1)];
    let j = finish_create(&mut reg, "NewVault", &path, MakeDir::Made, MakeDir::Made, &found).ok().unwrap();
    let body = to_value(&j);
    assert_eq!(body["ok"], true);
    assert_eq!(body["id"], "NewVault");
    assert_eq!(body["path"], "/vaults/NewVault");
    assert!(reg.get("NewVault").is_some(), "registered as a live vault");
    assert!(reg.get("NewVault").unwrap().tree().contains_key(".obsidian/x"));
    assert!(reg.names().contains(&"NewVault".to_string()));
}

#[test]
fn create_rejects_invalid_names() {
    let reg = VaultRegistry::discover("/vaults", &vec![]);
    for bad in ["../evil", ".hidden", "CON", "com1", "a/b", "a:b", "", "lpt9"] {
        let f = plan_create(&reg, bad).err().unwrap();
        assert_eq!(f.status, 400, "name {bad:?} must be rejected");
        assert_eq!(f.message, "Invalid vault name");
    }
}

#[test]
fn vault_names_at_the_edges() {
    for good in ["con1", "com0", "lpt", "com10", "console", "a.con", "\u{fc}ber", "com1x.txt"] {
        assert!(is_valid_vault_name(good), "{good} is valid");
    }
    for bad in ["nul.txt", "Aux", "PRN.", "LPT1.a.b", "a*b", "a?b", "a\"b", "a<b", "a>b", "a|b", "a\\b"] {
        assert!(!is_valid_vault_name(bad), "{bad} is not valid");
    }
    assert!(is_valid_vault_name(&"x".repeat(255)));
    assert!(!is_valid_vault_name(&"x".repeat(256)));
    assert!(is_valid_vault_name(&"\u{fc}".repeat(255)));
}

#[test]
fn create_duplicate_conflicts() {
    let mut reg = VaultRegistry::discover("/vaults", &vec![]);
    let f = finish_create(&mut reg, "V", "/vaults/V", MakeDir::Exists, MakeDir::Failed, &vec![]).err().unwrap();
    assert_eq!((f.status, f.message.as_str()), (409, "Vault already exists"));
    for (a, b) in [(MakeDir::Failed, MakeDir::Made), (MakeDir::Made, MakeDir::Failed), (MakeDir::Made, MakeDir::Exists)] {
        let f = finish_create(&mut reg, "V", "/vaults/V", a, b, &vec![]).err().unwrap();
        assert_eq!((f.status, f.message.as_str()), (500, "create failed"));
    }
    assert!(reg.names().is_empty());
}

#[test]
fn rename_moves_the_vault() {
    let mut reg = one_vault();
    reg.insert_vault("V".to_string(), "/vaults/V", &vec![]);
    let (from, to) = plan_rename(&reg, "V", "W").ok().unwrap();
    assert_eq!((from.as_str(), to.as_str()), ("/vaults/V", "/vaults/W"));
    let found = vec![file("w.md", 1)];
    let body = to_value(&finish_rename(&mut reg, "V", "W", &to, MoveDir::Moved, &found).ok().unwrap());
    assert_eq!(body["id"], "W");
    assert!(reg.get("V").is_none(), "old name dropped");
    assert!(reg.get("W").is_some(), "new name present");
    assert!(reg.get("W").unwrap().tree().contains_key("w.md"));
    assert!(reg.get("Games").unwrap().tree().contains_key("a.md"));
}

#[test]
fn failed_renames_change_nothing() {
    let mut reg = one_vault();
    let f = plan_rename(&reg, "Games", "CON").err().unwrap();
    assert_eq!((f.status, f.message.as_str()), (400, "Invalid vault name"));
    let f = finish_rename(&mut reg, "Games", "W", "/vaults/W", MoveDir::TargetExists, &vec![]).err().unwrap();
    assert_eq!((f.status, f.message.as_str()), (409, "A vault with that name already exists"));
    let f = finish_rename(&mut reg, "Games", "W", "/vaults/W", MoveDir::Failed, &vec![]).err().unwrap();
    assert_eq!((f.status, f.message.as_str()), (500, "rename failed"));
    assert_eq!(reg.names(), vec!["Games".to_string()]);
}

#[test]
fn remove_deletes_the_vault() {
    let mut reg = one_vault();
    assert_eq!(plan_remove(&reg, Some("Games")).ok().unwrap(), "/vaults/Games");
    let f = finish_remove(&mut reg, "Games", false).err().unwrap();
    assert_eq!((f.status, f.message.as_str()), (500, "remove failed"));
    assert!(reg.contains("Games"));
    let body = to_value(&finish_remove(&mut reg, "Games", true).ok().unwrap());
    assert_eq!(body["ok"], true);
    assert!(reg.get("Games").is_none());
}

#[test]
fn rename_and_remove_unknown_vault_404() {
    let reg = VaultRegistry::discover("/vaults", &vec![]);
    let f = plan_rename(&reg, "Nope", "W").err().unwrap();
    assert_eq!((f.status, f.message.as_str()), (404, "Vault not found"));
    let f = plan_remove(&reg, Some("Nope")).err().unwrap();
    assert_eq!((f.status, f.message.as_str()), (404, "Vault not found"));
    assert_eq!(plan_remove(&reg, None).err().unwrap().status, 404);
}
