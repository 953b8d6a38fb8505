use ignite_server::base64_text::{decode, encode, encode_groups};
use ignite_server::fs_routes::{
    access, batch_read, check_listing, plan_batch, plan_write, read_file, readdir, resolve_in_vault,
    resolve_pair, resolve_q, rm, stat, unlink, vault_root, write_file, ApiError, IoKind, RmAction,
};
use ignite_server::index::Meta;
use ignite_server::json::to_value;
use ignite_server::registry::{DirItem, VaultRegistry, WalkedItem};

fn reg() -> VaultRegistry {
    VaultRegistry::discover("/vaults", &vec![WalkedItem { name: "Games".to_string(), path: "/vaults/Games".to_string(), is_dir: true, found: vec![] }])
}

fn told(e: ApiError) -> (u16, String) {
    let f = e.into_response();
    (f.status, f.message)
}

fn meta(is_dir: bool, len: u64, modified: Option<u64>, created: Option<u64>) -> Meta {
    Meta { is_dir, len, modified, created }
}

#[test]
fn paths_are_resolved_in_their_vault() {
    for (rel, path) in [
        ("a.md", "/v/a.md"),
        ("\\a.md", "/v/a.md"),
        ("", "/v"),
        (".", "/v"),
        ("a//b/./c", "/v/a/b/c"),
        ("a/../b", "/v/b"),
        ("a/b/../..", "/v"),
        ("a\\..\\b", "/v/a\\..\\b"),
        ("...", "/v/..."),
    ] {
        assert_eq!(resolve_in_vault("/v", rel).ok().unwrap(), path, "{rel}");
    }
    assert_eq!(resolve_in_vault("/v/", "a").ok().unwrap(), "/v/a");
    for rel in ["..", "../x", "a/../../x", "\\../x", "a/b/../../../c"] {
        let e = resolve_in_vault("/v", rel).err().unwrap();
        assert_eq!(told(e), (400, "path escapes vault".to_string()), "{rel}");
    }
}

#[test]
fn absolute_paths_are_refused() {
    for rel in ["/etc/passwd", "/a.md", "/", "//a", "/../x"] {
        let e = resolve_in_vault("/v", rel).err().unwrap();
        assert_eq!(told(e), (400, "absolute path not allowed".to_string()), "{rel}");
    }
    let e = plan_write(&reg(), Some("Games"), "/a.md", "x", false).err().unwrap();
    assert_eq!(told(e).0, 400);
}

#[test]
fn traversal_is_rejected_on_read_and_write() {
    let r = reg();
    let e = resolve_q(&r, Some("Games"), Some("../../secret")).err().unwrap();
    assert_eq!(told(e).0, 400, "read traversal rejected");
    let e = plan_write(&r, Some("Games"), "../escape.md", "x", false).err().unwrap();
    assert_eq!(told(e).0, 400, "write traversal rejected");
}

#[test]
fn unknown_vault_is_404() {
    let e = resolve_q(&reg(), Some("Nope"), Some("a.md")).err().unwrap();
    assert_eq!(told(e), (404, "not found".to_string()));
}

#[test]
fn vault_and_path_are_required() {
    let r = reg();
    assert_eq!(told(resolve_q(&r, None, None).err().unwrap()), (400, "vault required".to_string()));
    assert_eq!(told(resolve_q(&r, Some("Games"), None).err().unwrap()), (400, "path required".to_string()));
    assert_eq!(vault_root(&r, Some("Games")).ok().unwrap(), "/vaults/Games");
    assert_eq!(resolve_q(&r, Some("Games"), Some("x/y")).ok().unwrap(), "/vaults/Games/x/y");
}

#[test]
fn errors_are_told_without_host_paths() {
    assert_eq!(told(ApiError::Io(IoKind::NotFound)), (404, "not found".to_string()));
    assert_eq!(told(ApiError::Io(IoKind::PermissionDenied)), (403, "permission denied".to_string()));
    assert_eq!(told(ApiError::Io(IoKind::Other)), (500, "io error".to_string()));
    assert_eq!(told(ApiError::NotFound), (404, "not found".to_string()));
    assert_eq!(told(ApiError::BadRequest("m")), (400, "m".to_string()));
}

#[test]
fn stat_file_and_dir() {
    let v = to_value(&stat(&meta(false, 5, Some(10), Some(20))));
    assert_eq!(v["type"], "file");
    assert_eq!(v["size"], 5);
    assert_eq!(v["mtime"], 10.0);
    assert_eq!(v["ctime"], 20.0);
    let v = to_value(&stat(&meta(true, 0, Some(10), None)));
    assert_eq!(v["type"], "directory");
    assert_eq!(v["ctime"], 10.0);
    let v = to_value(&stat(&meta(true, 0, None, None)));
    assert_eq!(v["mtime"], 0.0);
    assert_eq!(v["ctime"], 0.0);
}

#[test]
fn readdir_lists_entries() {
    let v = to_value(&readdir(&vec![
        DirItem { name: "sub".to_string(), is_dir: true },
        DirItem { name: "a.md".to_string(), is_dir: false },
    ]));
    assert_eq!(v[0]["name"], "sub");
    assert_eq!(v[0]["type"], "directory");
    assert_eq!(v[1]["name"], "a.md");
    assert_eq!(v[1]["type"], "file");
    assert!(check_listing(true).is_ok());
    assert_eq!(told(check_listing(false).err().unwrap()), (400, "not a directory".to_string()));
}

#[test]
fn read_file_utf8_and_dir_error() {
    for e in ["utf8", "utf-8"] {
        assert_eq!(read_file(false, Some(e)).ok(), Some("text/plain; charset=utf-8"));
    }
    assert_eq!(read_file(false, Some("latin1")).ok(), Some("application/octet-stream"));
    assert_eq!(read_file(false, None).ok(), Some("application/octet-stream"));
    assert_eq!(told(read_file(true, None).err().unwrap()), (400, "is a directory".to_string()));
}

#[test]
fn write_file_round_trips_with_real_metadata() {
    let w = plan_write(&reg(), Some("Games"), "sub/new.md", "brand new", false).ok().unwrap();
    assert_eq!(w.path, "/vaults/Games/sub/new.md");
    assert_eq!(w.bytes, b"brand new");
    let v = to_value(&write_file(&meta(false, 9, Some(77), None)));
    assert_eq!(v["ok"], true);
    assert_eq!(v["size"], 9, "real size of 'brand new'");
    assert_eq!(v["mtime"], 77.0);
    let v = to_value(&write_file(&meta(false, 9, None, None)));
    assert_eq!(v["mtime"], 0.0);
}

#[test]
fn write_file_base64() {
    let w = plan_write(&reg(), Some("Games"), "bin.dat", "aGVsbG8=", true).ok().unwrap();
    assert_eq!(w.bytes, b"hello");
    let e = plan_write(&reg(), Some("Games"), "bin.dat", "aGVsbG8", true).err().unwrap();
    assert_eq!(told(e), (400, "invalid base64".to_string()));
}

#[test]
fn renaming_resolves_both_paths() {
    let r = reg();
    let (a, b) = resolve_pair(&r, Some("Games"), "a.md", "x/renamed.md").ok().unwrap();
    assert_eq!((a.as_str(), b.as_str()), ("/vaults/Games/a.md", "/vaults/Games/x/renamed.md"));
    assert_eq!(told(resolve_pair(&r, Some("Games"), "a", "../b").err().unwrap()).0, 400);
    assert_eq!(told(resolve_pair(&r, Some("Nope"), "../a", "b").err().unwrap()).0, 404);
}

#[test]
fn unlink_rm_and_access() {
    assert!(access(true).is_ok());
    assert_eq!(told(access(false).err().unwrap()).0, 404);
    assert!(unlink(Ok(())).is_ok());
    assert!(unlink(Err(IoKind::NotFound)).is_ok(), "unlink is idempotent");
    assert_eq!(told(unlink(Err(IoKind::PermissionDenied)).err().unwrap()).0, 403);
    assert_eq!(rm(Ok(true), Some("true")).ok(), Some(RmAction::RemoveTree));
    assert_eq!(rm(Ok(true), Some("yes")).ok(), Some(RmAction::RemoveDir));
    assert_eq!(rm(Ok(true), None).ok(), Some(RmAction::RemoveDir));
    assert_eq!(rm(Ok(false), Some("true")).ok(), Some(RmAction::RemoveFile));
    assert_eq!(rm(Err(IoKind::NotFound), None).ok(), Some(RmAction::Nothing));
    assert_eq!(told(rm(Err(IoKind::Other), None).err().unwrap()).0, 500);
}

#[test]
fn batch_read_reads_many_and_skips_missing() {
    let paths: Vec<String> =
        ["a.md", "../no", "sub/b.md", "missing.md"].iter().map(|p| p.to_string()).collect();
    let plan = plan_batch(&reg(), Some("Games"), &paths).ok().unwrap();
    assert_eq!(plan.len(), 3);
    assert_eq!(plan[1], ("sub/b.md".to_string(), "/vaults/Games/sub/b.md".to_string()));
    let read = vec![
        ("a.md".to_string(), Some("hello".to_string())),
        ("sub/b.md".to_string(), Some("world!!".to_string())),
        ("missing.md".to_string(), None),
    ];
    let v = to_value(&batch_read(&read));
    assert_eq!(v["files"]["a.md"], "hello");
    assert_eq!(v["files"]["sub/b.md"], "world!!");
    assert!(v["files"].get("missing.md").is_none(), "unreadable paths are skipped");
    let many: Vec<String> = (0..1500).map(|i| format!("{i}.md")).collect();
    assert_eq!(plan_batch(&reg(), Some("Games"), &many).ok().unwrap().len(), 1000);
    assert_eq!(told(plan_batch(&reg(), None, &many).err().unwrap()).0, 400);
}

#[test]
fn base64_of_known_texts() {
    for (bytes, text) in [
        ("", ""),
        ("f", "Zg=="),
        ("fo", "Zm8="),
        ("foo", "Zm9v"),
        ("foob", "Zm9vYg=="),
        ("fooba", "Zm9vYmE="),
        ("foobar", "Zm9vYmFy"),
    ] {
        assert_eq!(encode(&bytes.as_bytes().to_vec()), text);
        assert_eq!(decode(text).unwrap(), bytes.as_bytes());
    }
    assert_eq!(encode_groups(&vec![0xfb, 0xff, 0xbf]), "+/+/");
    for bad in ["Zg=", "Zg", "Zh==", "Zm9=", "Z===", "Zm 8=", "Zm8=Zm8=", "_w=="] {
        assert!(decode(bad).is_none(), "{bad}");
    }
}
