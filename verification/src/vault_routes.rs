//! The vault listing, vault information, the start-up bundle, and the rules for creating,
//! renaming and removing vaults.
//!
//! A vault's id is its name, which is the name of its directory.

use vstd::prelude::*;

use crate::index::{law_a_tree_on_the_wire, states, tree_json, tree_value, walked, PathState, TreeEntry, VaultIndex};
use crate::json::{array_view, jstr, lemma_array_push, put, Json, JsonView};
use crate::paths::{join, joined};
use crate::registry::VaultRegistry;
use crate::reply::{answer, fail, failure, Failure, FailureView};
use crate::strmap::{law_sorted_keys, sorted_keys};
use crate::text::{char_texts, chars_of, has_prefix, lemma_split_concat, lemma_split_whole, lex_lt, lower, lower_chars, opt_str, opt_text, split, split_chars, starts_with, str_eq, string_of, texts, Text};

verus! {

// ---- names ----

/// A character that no vault name may hold.
pub open spec fn is_forbidden(c: char) -> bool {
    c == '/' || c == '\\' || c == ':' || c == '*' || c == '?' || c == '"' || c == '<' || c == '>' || c
        == '|'
}

/// A device name that Windows reserves, in lower case.
pub open spec fn is_reserved(b: Text) -> bool {
    ||| b == "con"@
    ||| b == "prn"@
    ||| b == "aux"@
    ||| b == "nul"@
    ||| b.len() == 4 && (has_prefix(b, "com"@) || has_prefix(b, "lpt"@)) && '1' <= b[3] <= '9'
}

/// A vault name: 1 to 255 characters, none of them forbidden, no dot in front, and no reserved
/// device name before the first dot, in whatever case.
pub open spec fn valid_name(t: Text) -> bool {
    &&& 1 <= t.len() <= 255
    &&& forall|i: int| 0 <= i < t.len() ==> !is_forbidden(#[trigger] t[i])
    &&& t[0] != '.'
    &&& !is_reserved(lower(split(t, '.')[0]))
}

/// Whether a device name is reserved.
fn reserved(b: &Vec<char>) -> (r: bool)
    ensures
        r == is_reserved(b@),
{
    let s = string_of(b);
    let s = s.as_str();
    if str_eq(s, "con") || str_eq(s, "prn") || str_eq(s, "aux") || str_eq(s, "nul") {
        return true;
    }
    b.len() == 4 && (starts_with(s, "com") || starts_with(s, "lpt")) && '1' <= b[3] && b[3] <= '9'
}

/// Whether a vault may have this name.
pub fn is_valid_vault_name(name: &str) -> (r: bool)
    ensures
        r == valid_name(name@),
{
    let v = chars_of(name);
    if v.len() == 0 || v.len() > 255 {
        return false;
    }
    for i in 0..v.len()
        invariant
            v@ == name@,
            forall|j: int| 0 <= j < i ==> !is_forbidden(#[trigger] v@[j]),
    {
        let c = v[i];
        if c == '/' || c == '\\' || c == ':' || c == '*' || c == '?' || c == '"' || c == '<' || c
            == '>' || c == '|' {
            assert(is_forbidden(v@[i as int]));
            return false;
        }
    }
    if v[0] == '.' {
        return false;
    }
    let parts = split_chars(&v, '.');
    let base = lower_chars(&parts[0]);
    assert(char_texts(parts@)[0] == parts@[0]@);
    !reserved(&base)
}

// ---- listings ----

/// The name that clients know an operating system by.
pub open spec fn platform_name(os: Text) -> Text {
    if os == "macos"@ {
        "darwin"@
    } else if os == "windows"@ {
        "win32"@
    } else {
        os
    }
}

/// The name that clients know an operating system by.
pub fn node_platform(os: &str) -> (r: String)
    ensures
        r@ == platform_name(os@),
{
    if str_eq(os, "macos") {
        "darwin".to_owned()
    } else if str_eq(os, "windows") {
        "win32".to_owned()
    } else {
        os.to_owned()
    }
}

/// The reported version, from `OBSIDIAN_VERSION` where it is set.
pub fn obsidian_version(var: Option<&str>) -> (r: String)
    ensures
        r@ == (match var {
            Some(v) => v@,
            None => "1.12.7"@,
        }),
{
    match var {
        Some(v) => v.to_owned(),
        None => "1.12.7".to_owned(),
    }
}

/// The path of a vault, empty where there is no such vault.
pub open spec fn vault_path(reg: VaultRegistry, name: Text) -> Text {
    if reg.vaults().contains_key(name) {
        reg.vaults()[name].path()
    } else {
        Seq::empty()
    }
}

/// The list entry of a vault: `{id, name, path}`.
pub open spec fn summary_members(reg: VaultRegistry, name: Text) -> Map<Text, JsonView> {
    Map::<Text, JsonView>::empty().insert("id"@, JsonView::Str(name)).insert(
        "name"@,
        JsonView::Str(name),
    ).insert("path"@, JsonView::Str(vault_path(reg, name)))
}

/// What a client is told of a vault: `{id, name, path, platform, version}`.
pub open spec fn info_value(reg: VaultRegistry, name: Text, platform: Text, version: Text) -> JsonView {
    JsonView::Object(
        summary_members(reg, name).insert("platform"@, JsonView::Str(platform)).insert(
            "version"@,
            JsonView::Str(version),
        ),
    )
}

/// The list of all vaults, by ascending name.
pub open spec fn list_value(reg: VaultRegistry) -> JsonView {
    JsonView::Array(
        sorted_keys(reg.vaults().dom()).map_values(
            |n: Text| JsonView::Object(summary_members(reg, n)),
        ),
    )
}

fn summary_entries(reg: &VaultRegistry, name: &str) -> (r: Vec<(String, Json)>)
    ensures
        crate::json::object_view(r@) == summary_members(*reg, name@),
{
    proof {
        reveal_strlit("");
        assert(""@ =~= Seq::<char>::empty());
    }
    let path = match reg.get(name) {
        Some(index) => index.root(),
        None => "",
    };
    let mut o: Vec<(String, Json)> = Vec::new();
    put(&mut o, "id", jstr(name));
    put(&mut o, "name", jstr(name));
    put(&mut o, "path", jstr(path));
    o
}

/// The list entry of a vault.
pub fn vault_summary(reg: &VaultRegistry, name: &str) -> (r: Json)
    ensures
        r@ == JsonView::Object(summary_members(*reg, name@)),
{
    Json::Object(summary_entries(reg, name))
}

/// What a client is told of a vault.
pub fn vault_info_value(reg: &VaultRegistry, name: &str, platform: &str, version: &str) -> (r: Json)
    ensures
        r@ == info_value(*reg, name@, platform@, version@),
{
    let mut o = summary_entries(reg, name);
    put(&mut o, "platform", jstr(platform));
    put(&mut o, "version", jstr(version));
    Json::Object(o)
}

/// The list of all vaults.
pub fn vault_list(reg: &VaultRegistry) -> (r: Json)
    ensures
        r@ == list_value(*reg),
{
    let names = reg.names();
    let ghost all = texts(names@);
    let ghost f = |n: Text| JsonView::Object(summary_members(*reg, n));
    let mut out: Vec<Json> = Vec::new();
    assert(all.take(0).map_values(f) =~= Seq::<JsonView>::empty());
    for i in 0..names.len()
        invariant
            all == texts(names@),
            f == (|n: Text| JsonView::Object(summary_members(*reg, n))),
            array_view(out@) == all.take(i as int).map_values(f),
    {
        let j = vault_summary(reg, names[i].as_str());
        proof {
            lemma_array_push(out@, j);
            assert(all[i as int] == names@[i as int]@);
            assert(all.take(i as int + 1).map_values(f) =~= all.take(i as int).map_values(f).push(
                f(all[i as int]),
            ));
        }
        out.push(j);
    }
    assert(all.take(all.len() as int) =~= all);
    Json::Array(out)
}

/// The vault that is meant where none is named: the first one.
pub open spec fn first_vault(reg: VaultRegistry) -> Option<Text> {
    let names = sorted_keys(reg.vaults().dom());
    if names.len() > 0 {
        Some(names[0])
    } else {
        None
    }
}

/// The vault that is meant where none is named.
pub fn default_vault(reg: &VaultRegistry) -> (r: Option<String>)
    ensures
        opt_text(r) == first_vault(*reg),
{
    let names = reg.names();
    assert(texts(names@).len() == names@.len());
    if names.len() > 0 {
        assert(texts(names@)[0] == names@[0]@);
        Some(names[0].clone())
    } else {
        None
    }
}

/// The vault that a query means: the named one or the first one, if it is known.
pub open spec fn meant_vault(reg: VaultRegistry, vault: Option<Text>) -> Option<Text> {
    let name = match vault {
        Some(v) => Some(v),
        None => first_vault(reg),
    };
    match name {
        Some(n) => if reg.vaults().contains_key(n) {
            Some(n)
        } else {
            None
        },
        None => None,
    }
}

/// Finds the vault that a query means.
fn find_vault(reg: &VaultRegistry, vault: Option<&str>) -> (r: Option<String>)
    ensures
        opt_text(r) == meant_vault(*reg, opt_str(vault)),
{
    let name = match vault {
        Some(v) => Some(v.to_owned()),
        None => default_vault(reg),
    };
    match name {
        Some(n) => if reg.contains(n.as_str()) {
            Some(n)
        } else {
            None
        },
        None => None,
    }
}

/// What an answer with a bare status says.
pub open spec fn status_answer(r: Result<Json, u16>) -> Result<JsonView, u16> {
    match r {
        Ok(j) => Ok(j@),
        Err(s) => Err(s),
    }
}

/// Tells a client of a vault; 404 where it is not known.
pub fn vault_info(reg: &VaultRegistry, vault: Option<&str>, platform: &str, version: &str) -> (r:
    Result<Json, u16>)
    ensures
        status_answer(r) == (match meant_vault(*reg, opt_str(vault)) {
            Some(n) => Ok::<JsonView, u16>(info_value(*reg, n, platform@, version@)),
            None => Err::<JsonView, u16>(404),
        }),
{
    match find_vault(reg, vault) {
        Some(n) => Ok(vault_info_value(reg, n.as_str(), platform, version)),
        None => Err(404),
    }
}

/// The settings in the start-up bundle.
pub open spec fn bundle_settings() -> JsonView {
    JsonView::Object(
        Map::<Text, JsonView>::empty().insert("contentCacheBytes"@, JsonView::Int(52_428_800)).insert(
            "inputCacheBytes"@,
            JsonView::Int(209_715_200),
        ).insert("inputCacheTtlMs"@, JsonView::Int(300_000)).insert(
            "directFetchHosts"@,
            JsonView::Array(Seq::empty()),
        ),
    )
}

/// The start-up bundle of a vault: the vault, all vaults, its tree, no plugins, and settings.
pub open spec fn bundle_value(reg: VaultRegistry, name: Text, platform: Text, version: Text) -> JsonView {
    JsonView::Object(
        Map::<Text, JsonView>::empty().insert("vault"@, info_value(reg, name, platform, version)).insert(
            "vaultList"@,
            list_value(reg),
        ).insert("tree"@, tree_value(reg.vaults()[name].entries())).insert(
            "plugins"@,
            JsonView::Array(Seq::empty()),
        ).insert("virtualPlugins"@, JsonView::Array(Seq::empty())).insert(
            "settings"@,
            bundle_settings(),
        ),
    )
}

fn settings_of_bundle() -> (r: Json)
    ensures
        r@ == bundle_settings(),
{
    let mut o: Vec<(String, Json)> = Vec::new();
    put(&mut o, "contentCacheBytes", Json::Uint(52_428_800));
    put(&mut o, "inputCacheBytes", Json::Uint(209_715_200));
    put(&mut o, "inputCacheTtlMs", Json::Uint(300_000));
    put(&mut o, "directFetchHosts", Json::Array(Vec::new()));
    Json::Object(o)
}

/// The start-up bundle of a vault; 404 where the vault is not known.
pub fn bootstrap(reg: &VaultRegistry, vault: Option<&str>, platform: &str, version: &str) -> (r:
    Result<Json, u16>)
    ensures
        status_answer(r) == (match meant_vault(*reg, opt_str(vault)) {
            Some(n) => Ok::<JsonView, u16>(bundle_value(*reg, n, platform@, version@)),
            None => Err::<JsonView, u16>(404),
        }),
        r matches Ok(j) ==> j@ is Object && j@->Object_0["vault"@] is Object && (
        j@->Object_0["vault"@]->Object_0["id"@] matches JsonView::Str(id) && reg.vaults().contains_key(
            id,
        ) && (vault matches Some(v) ==> id == v@) && j@->Object_0["tree"@] is Object && (forall|k: Text|
         #[trigger]
            j@->Object_0["tree"@]->Object_0.contains_key(k) <==> reg.vaults()[id].entries().contains_key(
                k,
            )) && j@->Object_0["tree"@] == tree_value(reg.vaults()[id].entries())),
{
    let name = match find_vault(reg, vault) {
        Some(n) => n,
        None => {
            return Err(404);
        },
    };
    let index = match reg.get(name.as_str()) {
        Some(i) => i,
        None => {
            return Err(404);
        },
    };
    let mut o: Vec<(String, Json)> = Vec::new();
    put(&mut o, "vault", vault_info_value(reg, name.as_str(), platform, version));
    put(&mut o, "vaultList", vault_list(reg));
    put(&mut o, "tree", tree_json(index.tree()));
    put(&mut o, "plugins", Json::Array(Vec::new()));
    put(&mut o, "virtualPlugins", Json::Array(Vec::new()));
    put(&mut o, "settings", settings_of_bundle());
    proof {
        law_the_bundle_of_a_vault(*reg, name@, platform@, version@, Seq::empty());
        let tree = tree_value(reg.vaults()[name@].entries());
        assert forall|k: Text| #[trigger]
            tree->Object_0.contains_key(k) <==> reg.vaults()[name@].entries().contains_key(k) by {
            law_a_tree_on_the_wire(reg.vaults()[name@].entries(), k);
        }
    }
    Ok(Json::Object(o))
}

/// The tree of a vault: 400 where no vault is named, 404 where it is not known.
pub fn fs_tree(reg: &VaultRegistry, vault: Option<&str>) -> (r: Result<Json, u16>)
    ensures
        status_answer(r) == (match vault {
            None => Err::<JsonView, u16>(400),
            Some(v) => if reg.vaults().contains_key(v@) {
                Ok::<JsonView, u16>(tree_value(reg.vaults()[v@].entries()))
            } else {
                Err::<JsonView, u16>(404)
            },
        }),
{
    match vault {
        None => Err(400),
        Some(v) => match reg.get(v) {
            Some(index) => Ok(tree_json(index.tree())),
            None => Err(404),
        },
    }
}

// ---- creating, renaming, removing ----

/// The answer `{"ok": true}`.
pub open spec fn ok_value() -> JsonView {
    JsonView::Object(Map::<Text, JsonView>::empty().insert("ok"@, JsonView::Bool(true)))
}

/// The answer `{"ok": true, "id": name, "path": path}`.
pub open spec fn done_value(name: Text, path: Text) -> JsonView {
    JsonView::Object(
        Map::<Text, JsonView>::empty().insert("ok"@, JsonView::Bool(true)).insert(
            "id"@,
            JsonView::Str(name),
        ).insert("path"@, JsonView::Str(path)),
    )
}

/// The answer `{"ok": true}`.
pub fn ok_json() -> (r: Json)
    ensures
        r@ == ok_value(),
{
    let mut o: Vec<(String, Json)> = Vec::new();
    put(&mut o, "ok", Json::Bool(true));
    Json::Object(o)
}

fn done_json(name: &str, path: &str) -> (r: Json)
    ensures
        r@ == done_value(name@, path@),
{
    let mut o: Vec<(String, Json)> = Vec::new();
    put(&mut o, "ok", Json::Bool(true));
    put(&mut o, "id", jstr(name));
    put(&mut o, "path", jstr(path));
    Json::Object(o)
}

/// How making a directory went.
#[derive(Clone, Copy, PartialEq, Eq, Debug, Structural)]
pub enum MakeDir {
    Made,
    Exists,
    Failed,
}

/// How moving a directory went.
#[derive(Clone, Copy, PartialEq, Eq, Debug, Structural)]
pub enum MoveDir {
    Moved,
    TargetExists,
    Failed,
}

/// The path of a vault to be created, or the refusal of its name.
pub fn plan_create(reg: &VaultRegistry, name: &str) -> (r: Result<String, Failure>)
    ensures
        match r {
            Ok(p) => valid_name(name@) && p@ == joined(reg.dir(), name@),
            Err(f) => !valid_name(name@) && f@ == failure(400, "Invalid vault name"@),
        },
{
    if !is_valid_vault_name(name) {
        return Err(fail(400, "Invalid vault name"));
    }
    Ok(join(reg.vault_root(), name))
}

/// The answer to creating a vault, once its directory and the directory `.obsidian` in it were
/// tried: the second is tried only where the first was made.
pub open spec fn create_answer(
    name: Text,
    path: Text,
    dir: MakeDir,
    config: MakeDir,
) -> Result<JsonView, FailureView> {
    if dir == MakeDir::Exists {
        Err(failure(409, "Vault already exists"@))
    } else if dir == MakeDir::Failed || config != MakeDir::Made {
        Err(failure(500, "create failed"@))
    } else {
        Ok(done_value(name, path))
    }
}

/// Ends the creation of a vault: where both directories were made, it is registered with what a
/// walk of it met.
pub fn finish_create(
    reg: &mut VaultRegistry,
    name: &str,
    path: &str,
    dir: MakeDir,
    config: MakeDir,
    found: &Vec<PathState>,
) -> (r: Result<Json, Failure>)
    ensures
        answer(r) == create_answer(name@, path@, dir, config),
        final(reg).dir() == old(reg).dir(),
        r is Err ==> final(reg).vaults() == old(reg).vaults(),
        r is Ok ==> registered(
            old(reg).vaults(),
            final(reg).vaults(),
            name@,
            path@,
            walked(states(found@)),
        ),
{
    if dir == MakeDir::Exists {
        return Err(fail(409, "Vault already exists"));
    }
    if dir == MakeDir::Failed || config != MakeDir::Made {
        return Err(fail(500, "create failed"));
    }
    reg.insert_vault(name.to_owned(), path, found);
    Ok(done_json(name, path))
}

/// A vault with these entries is registered under `name` at `path`, beside what was there.
pub open spec fn registered(
    was: Map<Text, VaultIndex>,
    now: Map<Text, VaultIndex>,
    name: Text,
    path: Text,
    entries: Map<Text, TreeEntry>,
) -> bool {
    &&& now.dom() == was.dom().insert(name)
    &&& now[name].path() == path
    &&& now[name].entries() == entries
    &&& forall|n: Text| n != name && #[trigger] now.contains_key(n) ==> now[n] == was[n]
}

/// The old and new path of a vault to be renamed, or the refusal: the new name is checked
/// before the vault is looked for.
pub fn plan_rename(reg: &VaultRegistry, vault: &str, name: &str) -> (r: Result<
    (String, String),
    Failure,
>)
    ensures
        match r {
            Ok((from, to)) => valid_name(name@) && reg.vaults().contains_key(vault@) && from@
                == joined(reg.dir(), vault@) && to@ == joined(reg.dir(), name@),
            Err(f) => if valid_name(name@) {
                !reg.vaults().contains_key(vault@) && f@ == failure(404, "Vault not found"@)
            } else {
                f@ == failure(400, "Invalid vault name"@)
            },
        },
{
    if !is_valid_vault_name(name) {
        return Err(fail(400, "Invalid vault name"));
    }
    if !reg.contains(vault) {
        return Err(fail(404, "Vault not found"));
    }
    Ok((join(reg.vault_root(), vault), join(reg.vault_root(), name)))
}

/// The answer to renaming a vault, once its directory was moved or not.
pub open spec fn rename_answer(name: Text, path: Text, moved: MoveDir) -> Result<
    JsonView,
    FailureView,
> {
    match moved {
        MoveDir::TargetExists => Err(failure(409, "A vault with that name already exists"@)),
        MoveDir::Failed => Err(failure(500, "rename failed"@)),
        MoveDir::Moved => Ok(done_value(name, path)),
    }
}

/// Ends the renaming of a vault: where its directory was moved, it leaves its old name and is
/// registered under the new one with what a walk of it met.
pub fn finish_rename(
    reg: &mut VaultRegistry,
    vault: &str,
    name: &str,
    path: &str,
    moved: MoveDir,
    found: &Vec<PathState>,
) -> (r: Result<Json, Failure>)
    ensures
        answer(r) == rename_answer(name@, path@, moved),
        final(reg).dir() == old(reg).dir(),
        r is Err ==> final(reg).vaults() == old(reg).vaults(),
        r is Ok ==> registered(
            old(reg).vaults().remove(vault@),
            final(reg).vaults(),
            name@,
            path@,
            walked(states(found@)),
        ),
{
    match moved {
        MoveDir::TargetExists => Err(fail(409, "A vault with that name already exists")),
        MoveDir::Failed => Err(fail(500, "rename failed")),
        MoveDir::Moved => {
            reg.remove_vault(vault);
            reg.insert_vault(name.to_owned(), path, found);
            Ok(done_json(name, path))
        },
    }
}

/// The path of a vault to be removed, or the refusal: it must be named and known.
pub fn plan_remove(reg: &VaultRegistry, vault: Option<&str>) -> (r: Result<String, Failure>)
    ensures
        match r {
            Ok(p) => vault matches Some(v) && reg.vaults().contains_key(v@) && p@ == joined(
                reg.dir(),
                v@,
            ),
            Err(f) => (vault matches Some(v) ==> !reg.vaults().contains_key(v@)) && f@ == failure(
                404,
                "Vault not found"@,
            ),
        },
{
    match vault {
        Some(v) => if reg.contains(v) {
            Ok(join(reg.vault_root(), v))
        } else {
            Err(fail(404, "Vault not found"))
        },
        None => Err(fail(404, "Vault not found")),
    }
}

/// Ends the removal of a vault: where its directory is gone, it is dropped.
pub fn finish_remove(reg: &mut VaultRegistry, vault: &str, removed: bool) -> (r: Result<
    Json,
    Failure,
>)
    ensures
        answer(r) == (if removed {
            Ok::<JsonView, FailureView>(ok_value())
        } else {
            Err::<JsonView, FailureView>(failure(500, "remove failed"@))
        }),
        final(reg).dir() == old(reg).dir(),
        final(reg).vaults() == (if removed {
            old(reg).vaults().remove(vault@)
        } else {
            old(reg).vaults()
        }),
{
    if !removed {
        return Err(fail(500, "remove failed"));
    }
    reg.remove_vault(vault);
    Ok(ok_json())
}

// ---- laws ----

/// A valid vault name is a single name: it holds no separator and is neither `.` nor `..`, so
/// the path of a vault lies directly below the vault root.
pub proof fn law_vault_names_stay_below_the_root(t: Text)
    requires
        valid_name(t),
    ensures
        !t.contains('/'),
        !t.contains('\\'),
        t.len() > 0 && t[0] != '.',
{
    if t.contains('/') {
        let i = choose|i: int| 0 <= i < t.len() && t[i] == '/';
        assert(is_forbidden(t[i]));
    }
    if t.contains('\\') {
        let i = choose|i: int| 0 <= i < t.len() && t[i] == '\\';
        assert(is_forbidden(t[i]));
    }
}

/// A created vault is in the listing with what was walked, and so is every vault that was there.
pub proof fn law_created_vault_is_known(
    was: Map<Text, VaultIndex>,
    now: Map<Text, VaultIndex>,
    name: Text,
    path: Text,
    entries: Map<Text, TreeEntry>,
    other: Text,
)
    requires
        registered(was, now, name, path, entries),
    ensures
        now.contains_key(name),
        now[name].entries() == entries,
        was.contains_key(other) ==> now.contains_key(other),
{
    assert(now.dom().contains(name));
    assert(was.contains_key(other) ==> now.dom().contains(other));
}

/// A renamed vault is known by its new name, with what was walked, and no longer by its old one;
/// every other vault stays as it was.
pub proof fn law_renamed_vault_moves(
    was: Map<Text, VaultIndex>,
    now: Map<Text, VaultIndex>,
    vault: Text,
    name: Text,
    path: Text,
    entries: Map<Text, TreeEntry>,
    other: Text,
)
    requires
        registered(was.remove(vault), now, name, path, entries),
        vault != name,
        other != vault,
        other != name,
    ensures
        now.contains_key(name),
        now[name].entries() == entries,
        !now.contains_key(vault),
        now.contains_key(other) <==> was.contains_key(other),
        was.contains_key(other) ==> now[other] == was[other],
{
    assert(now.dom().contains(name));
    assert(!now.dom().contains(vault));
    assert(now.dom().contains(other) <==> was.dom().contains(other));
}

/// The start-up bundle of a vault tells that vault, by its name, its own path and the tree of its
/// own entries, beside the list of all vaults, no plugins and the fixed settings.
pub proof fn law_the_bundle_of_a_vault(
    reg: VaultRegistry,
    name: Text,
    platform: Text,
    version: Text,
    k: Text,
)
    requires
        reg.vaults().contains_key(name),
    ensures
        bundle_value(reg, name, platform, version) is Object,
        ({
            let o = bundle_value(reg, name, platform, version)->Object_0;
            &&& o.dom() == set![
                "vault"@,
                "vaultList"@,
                "tree"@,
                "plugins"@,
                "virtualPlugins"@,
                "settings"@,
            ]
            &&& o["vault"@] is Object
            &&& o["vault"@]->Object_0.dom() == set![
                "id"@,
                "name"@,
                "path"@,
                "platform"@,
                "version"@,
            ]
            &&& o["vault"@]->Object_0["id"@] == JsonView::Str(name)
            &&& o["vault"@]->Object_0["name"@] == JsonView::Str(name)
            &&& o["vault"@]->Object_0["path"@] == JsonView::Str(reg.vaults()[name].path())
            &&& o["vault"@]->Object_0["platform"@] == JsonView::Str(platform)
            &&& o["vault"@]->Object_0["version"@] == JsonView::Str(version)
            &&& o["tree"@] is Object
            &&& o["tree"@]->Object_0.contains_key(k) <==> reg.vaults()[name].entries().contains_key(k)
            &&& o["tree"@] == tree_value(reg.vaults()[name].entries())
            &&& o["vaultList"@] == list_value(reg)
            &&& o["plugins"@] == JsonView::Array(Seq::empty())
            &&& o["virtualPlugins"@] == JsonView::Array(Seq::empty())
            &&& o["settings"@] is Object
            &&& o["settings"@]->Object_0.dom() == set![
                "contentCacheBytes"@,
                "inputCacheBytes"@,
                "inputCacheTtlMs"@,
                "directFetchHosts"@,
            ]
            &&& o["settings"@]->Object_0["contentCacheBytes"@] == JsonView::Int(52_428_800)
            &&& o["settings"@]->Object_0["inputCacheBytes"@] == JsonView::Int(209_715_200)
            &&& o["settings"@]->Object_0["inputCacheTtlMs"@] == JsonView::Int(300_000)
            &&& o["settings"@]->Object_0["directFetchHosts"@] == JsonView::Array(Seq::empty())
        }),
{
    reveal_strlit("vault");
    reveal_strlit("vaultList");
    reveal_strlit("tree");
    reveal_strlit("plugins");
    reveal_strlit("virtualPlugins");
    reveal_strlit("settings");
    assert("vault"@.len() == 5);
    assert("vaultList"@.len() == 9);
    assert("tree"@.len() == 4);
    assert("plugins"@.len() == 7);
    assert("virtualPlugins"@.len() == 14);
    assert("settings"@.len() == 8);
    law_a_tree_on_the_wire(reg.vaults()[name].entries(), k);
    lemma_info_members(reg, name, platform, version);
    lemma_settings_members();
    assert(bundle_value(reg, name, platform, version)->Object_0.dom() =~= set![
        "vault"@,
        "vaultList"@,
        "tree"@,
        "plugins"@,
        "virtualPlugins"@,
        "settings"@,
    ]);
}

proof fn lemma_info_members(reg: VaultRegistry, name: Text, platform: Text, version: Text)
    ensures
        info_value(reg, name, platform, version)->Object_0.dom() == set![
            "id"@,
            "name"@,
            "path"@,
            "platform"@,
            "version"@,
        ],
        info_value(reg, name, platform, version)->Object_0["id"@] == JsonView::Str(name),
        info_value(reg, name, platform, version)->Object_0["name"@] == JsonView::Str(name),
        info_value(reg, name, platform, version)->Object_0["path"@] == JsonView::Str(
            vault_path(reg, name),
        ),
        info_value(reg, name, platform, version)->Object_0["platform"@] == JsonView::Str(platform),
        info_value(reg, name, platform, version)->Object_0["version"@] == JsonView::Str(version),
        summary_members(reg, name).dom() == set!["id"@, "name"@, "path"@],
        summary_members(reg, name)["id"@] == JsonView::Str(name),
        summary_members(reg, name)["name"@] == JsonView::Str(name),
        summary_members(reg, name)["path"@] == JsonView::Str(vault_path(reg, name)),
{
    reveal_strlit("id");
    reveal_strlit("name");
    reveal_strlit("path");
    reveal_strlit("platform");
    reveal_strlit("version");
    assert("id"@.len() == 2);
    assert("name"@.len() == 4);
    assert("path"@.len() == 4);
    assert("platform"@.len() == 8);
    assert("version"@.len() == 7);
    assert("name"@[0] != "path"@[0]);
    assert(summary_members(reg, name).dom() =~= set!["id"@, "name"@, "path"@]);
    assert(info_value(reg, name, platform, version)->Object_0.dom() =~= set![
        "id"@,
        "name"@,
        "path"@,
        "platform"@,
        "version"@,
    ]);
}

proof fn lemma_settings_members()
    ensures
        bundle_settings()->Object_0.dom() == set![
            "contentCacheBytes"@,
            "inputCacheBytes"@,
            "inputCacheTtlMs"@,
            "directFetchHosts"@,
        ],
        bundle_settings()->Object_0["contentCacheBytes"@] == JsonView::Int(52_428_800),
        bundle_settings()->Object_0["inputCacheBytes"@] == JsonView::Int(209_715_200),
        bundle_settings()->Object_0["inputCacheTtlMs"@] == JsonView::Int(300_000),
        bundle_settings()->Object_0["directFetchHosts"@] == JsonView::Array(Seq::empty()),
{
    reveal_strlit("contentCacheBytes");
    reveal_strlit("inputCacheBytes");
    reveal_strlit("inputCacheTtlMs");
    reveal_strlit("directFetchHosts");
    assert("contentCacheBytes"@.len() == 17);
    assert("inputCacheBytes"@.len() == 15);
    assert("inputCacheTtlMs"@.len() == 15);
    assert("directFetchHosts"@.len() == 16);
    assert("inputCacheBytes"@[10] != "inputCacheTtlMs"@[10]);
    assert(bundle_settings()->Object_0.dom() =~= set![
        "contentCacheBytes"@,
        "inputCacheBytes"@,
        "inputCacheTtlMs"@,
        "directFetchHosts"@,
    ]);
}

/// What a client is told of a vault is its name for id and name, its own path, and the platform
/// and version of the server.
pub proof fn law_what_is_told_of_a_vault(
    reg: VaultRegistry,
    name: Text,
    platform: Text,
    version: Text,
)
    requires
        reg.vaults().contains_key(name),
    ensures
        ({
            let o = info_value(reg, name, platform, version)->Object_0;
            &&& info_value(reg, name, platform, version) is Object
            &&& o.dom() == set!["id"@, "name"@, "path"@, "platform"@, "version"@]
            &&& o["id"@] == JsonView::Str(name)
            &&& o["name"@] == JsonView::Str(name)
            &&& o["path"@] == JsonView::Str(reg.vaults()[name].path())
            &&& o["platform"@] == JsonView::Str(platform)
            &&& o["version"@] == JsonView::Str(version)
        }),
{
    lemma_info_members(reg, name, platform, version);
}

/// The listing has an entry for every vault, with its name and its own path, and for nothing else;
/// the names ascend.
pub proof fn law_the_listing_of_vaults(reg: VaultRegistry, name: Text, i: int, j: int)
    requires
        reg.vaults().dom().finite(),
    ensures
        list_value(reg) is Array,
        ({
            let a = list_value(reg)->Array_0;
            &&& 0 <= i < a.len() ==> a[i] is Object && ({
                let o = a[i]->Object_0;
                &&& o.dom() == set!["id"@, "name"@, "path"@]
                &&& o["id"@] matches JsonView::Str(n) && reg.vaults().contains_key(n) && o["name"@]
                    == JsonView::Str(n) && o["path"@] == JsonView::Str(reg.vaults()[n].path())
            })
            &&& 0 <= i < j < a.len() ==> lex_lt(
                a[i]->Object_0["id"@]->Str_0,
                a[j]->Object_0["id"@]->Str_0,
            )
            &&& reg.vaults().contains_key(name) ==> exists|x: int|
                0 <= x < a.len() && (#[trigger] a[x])->Object_0["id"@] == JsonView::Str(name)
        }),
{
    let dom = reg.vaults().dom();
    let names = sorted_keys(dom);
    let a = list_value(reg)->Array_0;
    law_sorted_keys(dom, names);
    assert forall|x: int| 0 <= x < a.len() implies (#[trigger] a[x]) == JsonView::Object(
        summary_members(reg, names[x]),
    ) && a[x]->Object_0["id"@] == JsonView::Str(names[x]) && dom.contains(names[x]) by {
        lemma_info_members(reg, names[x], names[x], names[x]);
        assert(names.to_set().contains(names[x]));
    }
    if 0 <= i < a.len() {
        lemma_info_members(reg, names[i], names[i], names[i]);
        assert(a[i] is Object);
    }
    if 0 <= i < j < a.len() {
        assert(a[j] is Object);
    }
    if dom.contains(name) {
        assert(names.to_set().contains(name));
        let x = choose|x: int| 0 <= x < names.len() && names[x] == name;
        assert(a[x]->Object_0["id"@] == JsonView::Str(name));
    }
}

/// Where no vault is named the one with the least name is meant, if there is any. A named one is
/// meant where it is known, and none otherwise.
pub proof fn law_which_vault_is_meant(reg: VaultRegistry, name: Text)
    requires
        reg.vaults().dom().finite(),
    ensures
        reg.vaults().contains_key(name) ==> meant_vault(reg, Some(name)) == Some(name),
        !reg.vaults().contains_key(name) ==> meant_vault(reg, Some(name)) is None,
        reg.vaults().contains_key(name) ==> (meant_vault(reg, None) matches Some(n)
            && reg.vaults().contains_key(n) && (n == name || lex_lt(n, name))),
        (forall|n: Text| !(#[trigger] reg.vaults().contains_key(n))) ==> meant_vault(reg, None) is None
            && first_vault(reg) is None,
        first_vault(reg) == meant_vault(reg, None),
{
    let dom = reg.vaults().dom();
    let names = sorted_keys(dom);
    law_sorted_keys(dom, names);
    if dom.contains(name) {
        assert(names.to_set().contains(name));
        let x = choose|x: int| 0 <= x < names.len() && names[x] == name;
        assert(names.to_set().contains(names[0]));
    }
    if names.len() > 0 {
        assert(names.to_set().contains(names[0]));
        assert(reg.vaults().contains_key(names[0]));
    }
}

/// A vault name has 1 to 255 characters, no dot in front and none of `" * / : < > ? \ |`. What
/// stands before its first dot is no device name, in whatever case: not `con`, `prn`, `aux` or
/// `nul`, nor `com` or `lpt` with a digit from 1 to 9. Any other name is one.
pub proof fn law_vault_names(base: Text, rest: Text)
    requires
        !base.contains('.'),
    ensures
        valid_name(base) <==> 1 <= base.len() <= 255 && plain_name(base) && !device_name(lower(base)),
        valid_name(base.push('.') + rest) <==> base.len() > 0 && base.len() + rest.len() <= 254
            && plain_name(base) && plain_name(rest) && !device_name(lower(base)),
{
    let t = base.push('.') + rest;
    reveal_strlit("com");
    reveal_strlit("lpt");
    let b = lower(base);
    if b.len() == 4 {
        assert(b.take(3) =~= b.subrange(0, 3));
    }
    assert(device_name(b) <==> is_reserved(b));
    lemma_split_whole(base, '.');
    lemma_split_concat(base, rest, '.');
    if base.len() > 0 {
        assert(base.contains(base[0]));
    }
    lemma_plain(base);
    lemma_plain(t);
    if plain_name(base) && plain_name(rest) {
        assert(plain_name(t));
    }
    if plain_name(t) {
        assert forall|i: int| 0 <= i < base.len() implies !forbidden_code((#[trigger] base[i]) as u32) by {
            assert(t[i] == base[i]);
        }
        assert forall|i: int| 0 <= i < rest.len() implies !forbidden_code((#[trigger] rest[i]) as u32) by {
            assert(t[base.len() + 1 + i] == rest[i]);
        }
    }
}

proof fn lemma_plain(t: Text)
    ensures
        plain_name(t) <==> (forall|i: int| 0 <= i < t.len() ==> !is_forbidden(#[trigger] t[i])),
{
    assert forall|i: int| 0 <= i < t.len() implies (is_forbidden(#[trigger] t[i])
        <==> forbidden_code(t[i] as u32)) by {
        lemma_forbidden_code(t[i]);
    }
}

proof fn lemma_forbidden_code(c: char)
    ensures
        is_forbidden(c) <==> forbidden_code(c as u32),
{
}

/// The code points that no vault name holds.
pub open spec fn forbidden_code(n: u32) -> bool {
    n == 34 || n == 42 || n == 47 || n == 58 || n == 60 || n == 62 || n == 63 || n == 92 || n == 124
}

/// Whether a text has none of the code points that no vault name holds.
pub open spec fn plain_name(t: Text) -> bool {
    forall|i: int| 0 <= i < t.len() ==> !forbidden_code((#[trigger] t[i]) as u32)
}

/// The names of devices, in lower case.
pub open spec fn device_name(t: Text) -> bool {
    ||| t == "con"@ || t == "prn"@ || t == "aux"@ || t == "nul"@
    ||| t.len() == 4 && (t.take(3) == "com"@ || t.take(3) == "lpt"@) && 49 <= t[3] as u32 <= 57
}

/// Two operating systems are known by other names, and every other by its own.
pub proof fn law_platform_names(os: Text)
    ensures
        platform_name("macos"@) == "darwin"@,
        platform_name("windows"@) == "win32"@,
        os != "macos"@ && os != "windows"@ ==> platform_name(os) == os,
{
    reveal_strlit("macos");
    reveal_strlit("windows");
    assert("macos"@.len() == 5);
    assert("windows"@.len() == 7);
}

/// A vault is created where its directory and the one in it could be made, and the answer names
/// it and its path; else it says whether the directory was there already.
pub proof fn law_how_a_creation_ends(name: Text, path: Text, dir: MakeDir, config: MakeDir)
    ensures
        dir == MakeDir::Made && config == MakeDir::Made ==> (create_answer(name, path, dir, config) matches Ok(
            j,
        ) && j is Object && j->Object_0.dom() == set!["ok"@, "id"@, "path"@] && j->Object_0["ok"@]
            == JsonView::Bool(true) && j->Object_0["id"@] == JsonView::Str(name)
            && j->Object_0["path"@] == JsonView::Str(path)),
        dir == MakeDir::Exists ==> (create_answer(name, path, dir, config) matches Err(f) && f.status
            == 409 && f.message == "Vault already exists"@),
        dir == MakeDir::Failed || (dir == MakeDir::Made && config != MakeDir::Made) ==> (create_answer(
            name,
            path,
            dir,
            config,
        ) matches Err(f) && f.status == 500 && f.message == "create failed"@),
{
    reveal_strlit("ok");
    reveal_strlit("id");
    reveal_strlit("path");
    assert("ok"@.len() == 2);
    assert("id"@.len() == 2);
    assert("path"@.len() == 4);
    assert("ok"@[0] != "id"@[0]);
    assert(done_value(name, path)->Object_0.dom() =~= set!["ok"@, "id"@, "path"@]);
}

/// A vault is renamed where its directory could be moved, and the answer names its new name and
/// path; else it says whether the new name was taken.
pub proof fn law_how_a_renaming_ends(name: Text, path: Text)
    ensures
        rename_answer(name, path, MoveDir::Moved) matches Ok(j) && j is Object && j->Object_0.dom()
            == set!["ok"@, "id"@, "path"@] && j->Object_0["ok"@] == JsonView::Bool(true)
            && j->Object_0["id"@] == JsonView::Str(name) && j->Object_0["path"@] == JsonView::Str(path),
        rename_answer(name, path, MoveDir::TargetExists) matches Err(f) && f.status == 409
            && f.message == "A vault with that name already exists"@,
        rename_answer(name, path, MoveDir::Failed) matches Err(f) && f.status == 500 && f.message
            == "rename failed"@,
        ok_value() is Object && ok_value()->Object_0.dom() == set!["ok"@] && ok_value()->Object_0["ok"@]
            == JsonView::Bool(true),
{
    reveal_strlit("ok");
    reveal_strlit("id");
    reveal_strlit("path");
    assert("ok"@.len() == 2);
    assert("id"@.len() == 2);
    assert("path"@.len() == 4);
    assert("ok"@[0] != "id"@[0]);
    assert(done_value(name, path)->Object_0.dom() =~= set!["ok"@, "id"@, "path"@]);
    assert(ok_value()->Object_0.dom() =~= set!["ok"@]);
}

/// Registering a vault puts it at its path and leaves every other vault as it was.
pub proof fn law_registering_a_vault(
    was: Map<Text, VaultIndex>,
    now: Map<Text, VaultIndex>,
    name: Text,
    path: Text,
    entries: Map<Text, TreeEntry>,
    other: Text,
)
    requires
        registered(was, now, name, path, entries),
    ensures
        now.contains_key(name) && now[name].path() == path && now[name].entries() == entries,
        other != name ==> (now.contains_key(other) <==> was.contains_key(other)),
        other != name && was.contains_key(other) ==> now[other] == was[other],
{
    assert(now.dom().contains(name));
    assert(other != name ==> (now.dom().contains(other) <==> was.dom().contains(other)));
}

/// An answer says its own body or its own status.
pub proof fn law_what_status_answers_say(r: Result<Json, u16>)
    ensures
        r matches Ok(j) ==> status_answer(r) == Ok::<JsonView, u16>(j@),
        r matches Err(s) ==> status_answer(r) == Err::<JsonView, u16>(s),
{
}

} // verus!
