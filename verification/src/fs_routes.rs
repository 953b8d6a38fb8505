//! The rules of the file routes: which path a request means, what it may do there, and what it
//! is answered. Every path is resolved within its vault.
//!
//! The caller touches the disk and reports what came of it.

use vstd::prelude::*;

use crate::base64_text::{b64_decoded, decode};
use crate::index::Meta;
use crate::json::{array_view, jmillis, jstr, lemma_array_push, millis_json, object_view, put, Json, JsonView};
use crate::paths::{join, joined};
use crate::registry::{DirItem, VaultRegistry};
use crate::reply::{answer, fail, failure, Failure, FailureView};
use crate::text::{bytes_of, char_texts, chars_of, lemma_joined_split, lemma_split_concat, lemma_split_pieces, lemma_split_whole, list_text, opt_str, opt_text, split, split_chars, str_eq, string_of, sub_chars, texts, Text};
use crate::vault_routes::{ok_json, ok_value};

verus! {

// ---- errors ----

/// The kinds of I/O error that are told apart.
#[derive(Clone, Copy, PartialEq, Eq, Debug, Structural)]
pub enum IoKind {
    NotFound,
    PermissionDenied,
    Other,
}

/// Why a request cannot be served. The answer never shows a path of the host.
#[derive(Clone, Copy, Debug)]
pub enum ApiError {
    BadRequest(&'static str),
    NotFound,
    Io(IoKind),
}

/// What an error says.
pub enum ApiErrorView {
    BadRequest(Text),
    NotFound,
    Io(IoKind),
}

/// The status and the message of an error.
pub open spec fn error_failure(e: ApiErrorView) -> FailureView {
    match e {
        ApiErrorView::BadRequest(m) => failure(400, m),
        ApiErrorView::NotFound => failure(404, "not found"@),
        ApiErrorView::Io(IoKind::NotFound) => failure(404, "not found"@),
        ApiErrorView::Io(IoKind::PermissionDenied) => failure(403, "permission denied"@),
        ApiErrorView::Io(IoKind::Other) => failure(500, "io error"@),
    }
}

impl ApiError {
    /// What the error says.
    pub open spec fn view(self) -> ApiErrorView {
        match self {
            ApiError::BadRequest(m) => ApiErrorView::BadRequest(m@),
            ApiError::NotFound => ApiErrorView::NotFound,
            ApiError::Io(k) => ApiErrorView::Io(k),
        }
    }

    /// The status and the message of the error.
    pub fn into_response(self) -> (r: Failure)
        ensures
            r@ == error_failure(self@),
    {
        match self {
            ApiError::BadRequest(m) => fail(400, m),
            ApiError::NotFound => fail(404, "not found"),
            ApiError::Io(IoKind::NotFound) => fail(404, "not found"),
            ApiError::Io(IoKind::PermissionDenied) => fail(403, "permission denied"),
            ApiError::Io(IoKind::Other) => fail(500, "io error"),
        }
    }
}

/// What a text answer says.
pub open spec fn text_answer(r: Result<String, ApiError>) -> Result<Text, ApiErrorView> {
    match r {
        Ok(s) => Ok(s@),
        Err(e) => Err(e@),
    }
}

/// What a JSON answer says.
pub open spec fn json_answer(r: Result<Json, ApiError>) -> Result<JsonView, ApiErrorView> {
    match r {
        Ok(j) => Ok(j@),
        Err(e) => Err(e@),
    }
}

// ---- paths ----

/// An absolute path: it begins with a slash.
pub open spec fn is_absolute(t: Text) -> bool {
    t.len() > 0 && t[0] == '/'
}

/// A path without the slashes and backslashes in front.
pub open spec fn stripped(t: Text) -> Text
    decreases t.len(),
{
    if t.len() > 0 && (t[0] == '/' || t[0] == '\\') {
        stripped(t.drop_first())
    } else {
        t
    }
}

/// The names that lead from the vault root to where the parts of a path lead: empty parts and
/// `.` stay, `..` goes one up. `None` where the path would leave the root.
pub open spec fn resolved(parts: Seq<Text>) -> Option<Seq<Text>>
    decreases parts.len(),
{
    if parts.len() == 0 {
        Some(Seq::empty())
    } else {
        match resolved(parts.drop_last()) {
            None => None,
            Some(names) => {
                let c = parts.last();
                if c.len() == 0 || c == seq!['.'] {
                    Some(names)
                } else if c == seq!['.', '.'] {
                    if names.len() == 0 {
                        None
                    } else {
                        Some(names.drop_last())
                    }
                } else {
                    Some(names.push(c))
                }
            },
        }
    }
}

/// The path that some names lead to from a root.
pub open spec fn path_below(root: Text, names: Seq<Text>) -> Text
    decreases names.len(),
{
    if names.len() == 0 {
        root
    } else {
        joined(path_below(root, names.drop_last()), names.last())
    }
}

/// The names below the root that a request's path leads to.
pub open spec fn names_below(rel: Text) -> Option<Seq<Text>> {
    resolved(split(stripped(rel), '/'))
}

/// The path that a request means within a vault: an absolute path is refused, and so is one that
/// would leave the root. Paths are in Unix syntax: a slash separates, a backslash that is not in
/// front is a character of a name, and there are no drive letters.
pub open spec fn path_in_vault(root: Text, rel: Text) -> Result<Text, ApiErrorView> {
    if is_absolute(rel) {
        Err(ApiErrorView::BadRequest("absolute path not allowed"@))
    } else {
        match names_below(rel) {
            Some(names) => Ok(path_below(root, names)),
            None => Err(ApiErrorView::BadRequest("path escapes vault"@)),
        }
    }
}

fn strip(v: &Vec<char>) -> (r: Vec<char>)
    ensures
        r@ == stripped(v@),
{
    let mut i: usize = 0;
    assert(v@.skip(0) =~= v@);
    while i < v.len() && (v[i] == '/' || v[i] == '\\')
        invariant
            i <= v@.len(),
            stripped(v@) == stripped(v@.skip(i as int)),
        decreases v@.len() - i,
    {
        assert(v@.skip(i as int).drop_first() =~= v@.skip(i as int + 1));
        i = i + 1;
    }
    let r = sub_chars(v, i, v.len());
    assert(r@ =~= v@.skip(i as int));
    r
}

proof fn lemma_resolved_prefix(parts: Seq<Text>, n: int)
    requires
        0 <= n <= parts.len(),
        resolved(parts) is Some,
    ensures
        resolved(parts.take(n)) is Some,
    decreases parts.len(),
{
    if n < parts.len() {
        lemma_resolved_prefix(parts.drop_last(), n);
        assert(parts.drop_last().take(n) =~= parts.take(n));
    } else {
        assert(parts.take(n) =~= parts);
    }
}

/// Resolves a path of a request within the vault at `root`: an absolute path is refused, and so
/// is one that would leave the root. Paths are in Unix syntax. The path is taken as text; links on
/// disk are not looked at.
pub fn resolve_in_vault(root: &str, rel: &str) -> (r: Result<String, ApiError>)
    ensures
        text_answer(r) == path_in_vault(root@, rel@),
{
    let chars = chars_of(rel);
    if chars.len() > 0 && chars[0] == '/' {
        return Err(ApiError::BadRequest("absolute path not allowed"));
    }
    let parts = split_chars(&strip(&chars), '/');
    let ghost all = split(stripped(rel@), '/');
    let mut names: Vec<String> = Vec::new();
    assert(char_texts(parts@).len() == parts@.len());
    assert(all.take(0) =~= Seq::<Text>::empty());
    assert(texts(names@) =~= Seq::<Text>::empty());
    for i in 0..parts.len()
        invariant
            all == split(stripped(rel@), '/'),
            !is_absolute(rel@),
            char_texts(parts@) == all,
            parts@.len() == all.len(),
            resolved(all.take(i as int)) == Some(texts(names@)),
    {
        let c = &parts[i];
        proof {
            assert(char_texts(parts@)[i as int] == parts@[i as int]@);
            assert(all.take(i as int + 1).drop_last() =~= all.take(i as int));
            assert(all.take(i as int + 1).last() == c@);
            if resolved(all) is Some {
                lemma_resolved_prefix(all, i as int + 1);
            }
        }
        let ghost before = texts(names@);
        if c.len() == 0 || (c.len() == 1 && c[0] == '.') {
            assert(c@.len() == 0 || c@ =~= seq!['.']);
        } else if c.len() == 2 && c[0] == '.' && c[1] == '.' {
            assert(c@ =~= seq!['.', '.']);
            if names.len() == 0 {
                assert(before.len() == 0);
                return Err(ApiError::BadRequest("path escapes vault"));
            }
            names.pop();
            assert(texts(names@) =~= before.drop_last());
        } else {
            let name = string_of(c);
            names.push(name);
            assert(texts(names@) =~= before.push(c@));
        }
    }
    assert(all.take(all.len() as int) =~= all);
    let mut out = root.to_owned();
    let ghost segs = texts(names@);
    assert(segs.take(0) =~= Seq::<Text>::empty());
    for i in 0..names.len()
        invariant
            segs == texts(names@),
            out@ == path_below(root@, segs.take(i as int)),
    {
        assert(segs[i as int] == names@[i as int]@);
        assert(segs.take(i as int + 1).drop_last() =~= segs.take(i as int));
        out = join(out.as_str(), names[i].as_str());
    }
    assert(segs.take(segs.len() as int) =~= segs);
    Ok(out)
}

/// The root of the vault that a request names: it must be named and known.
pub open spec fn root_of(reg: VaultRegistry, vault: Option<Text>) -> Result<Text, ApiErrorView> {
    match vault {
        None => Err(ApiErrorView::BadRequest("vault required"@)),
        Some(v) => if reg.vaults().contains_key(v) {
            Ok(reg.vaults()[v].path())
        } else {
            Err(ApiErrorView::NotFound)
        },
    }
}

/// The path that a vault and a path in it mean: the vault is looked at first.
pub open spec fn meant_path(reg: VaultRegistry, vault: Option<Text>, path: Option<Text>) -> Result<
    Text,
    ApiErrorView,
> {
    match root_of(reg, vault) {
        Err(e) => Err(e),
        Ok(root) => match path {
            None => Err(ApiErrorView::BadRequest("path required"@)),
            Some(p) => path_in_vault(root, p),
        },
    }
}

/// The root of the vault that a request names.
pub fn vault_root(reg: &VaultRegistry, name: Option<&str>) -> (r: Result<String, ApiError>)
    ensures
        text_answer(r) == root_of(*reg, opt_str(name)),
{
    match name {
        None => Err(ApiError::BadRequest("vault required")),
        Some(n) => match reg.get(n) {
            Some(index) => Ok(index.root().to_owned()),
            None => Err(ApiError::NotFound),
        },
    }
}

/// The path that a query means.
pub fn resolve_q(reg: &VaultRegistry, vault: Option<&str>, path: Option<&str>) -> (r: Result<
    String,
    ApiError,
>)
    ensures
        text_answer(r) == meant_path(*reg, opt_str(vault), opt_str(path)),
{
    let root = match vault_root(reg, vault) {
        Ok(root) => root,
        Err(e) => {
            return Err(e);
        },
    };
    match path {
        None => Err(ApiError::BadRequest("path required")),
        Some(p) => resolve_in_vault(root.as_str(), p),
    }
}

/// The two paths that a renaming or a copy means: the source is resolved first.
pub fn resolve_pair(reg: &VaultRegistry, vault: Option<&str>, from: &str, to: &str) -> (r: Result<
    (String, String),
    ApiError,
>)
    ensures
        ({
            let a = meant_path(*reg, opt_str(vault), Some(from@));
            let b = meant_path(*reg, opt_str(vault), Some(to@));
            match r {
                Ok((x, y)) => a == Ok::<Text, ApiErrorView>(x@) && b == Ok::<Text, ApiErrorView>(
                    y@,
                ),
                Err(e) => if a is Err {
                    a == Err::<Text, ApiErrorView>(e@)
                } else {
                    b == Err::<Text, ApiErrorView>(e@)
                },
            }
        }),
{
    match (resolve_q(reg, vault, Some(from)), resolve_q(reg, vault, Some(to))) {
        (Ok(a), Ok(b)) => Ok((a, b)),
        (Err(e), _) => Err(e),
        (_, Err(e)) => Err(e),
    }
}

// ---- reading ----

/// The name of a kind of node.
pub open spec fn kind_text(is_dir: bool) -> Text {
    if is_dir {
        "directory"@
    } else {
        "file"@
    }
}

fn kind_str(is_dir: bool) -> (r: &'static str)
    ensures
        r@ == kind_text(is_dir),
{
    if is_dir {
        "directory"
    } else {
        "file"
    }
}

/// A time of modification, 0 where it is not known.
pub open spec fn modified_or_zero(m: Meta) -> u64 {
    match m.modified {
        Some(t) => t,
        None => 0,
    }
}

/// A time of creation, that of modification where it is not known.
pub open spec fn created_or_modified(m: Meta) -> u64 {
    match m.created {
        Some(t) => t,
        None => modified_or_zero(m),
    }
}

/// What a client is told of a path: `{type, size, mtime, ctime}`.
pub open spec fn stat_value(m: Meta) -> JsonView {
    JsonView::Object(
        Map::<Text, JsonView>::empty().insert("type"@, JsonView::Str(kind_text(m.is_dir))).insert(
            "size"@,
            JsonView::Int(m.len as int),
        ).insert("mtime"@, millis_json(modified_or_zero(m) as nat)).insert(
            "ctime"@,
            millis_json(created_or_modified(m) as nat),
        ),
    )
}

/// What a client is told of a path.
pub fn stat(m: &Meta) -> (r: Json)
    ensures
        r@ == stat_value(*m),
{
    let mtime: u64 = match m.modified {
        Some(t) => t,
        None => 0,
    };
    let ctime: u64 = match m.created {
        Some(t) => t,
        None => mtime,
    };
    let mut o: Vec<(String, Json)> = Vec::new();
    put(&mut o, "type", jstr(kind_str(m.is_dir)));
    put(&mut o, "size", Json::Uint(m.len));
    put(&mut o, "mtime", jmillis(mtime));
    put(&mut o, "ctime", jmillis(ctime));
    Json::Object(o)
}

/// Whether a directory may be listed: it must be one.
pub fn check_listing(is_dir: bool) -> (r: Result<(), ApiError>)
    ensures
        r is Ok <==> is_dir,
        r matches Err(e) ==> e@ == ApiErrorView::BadRequest("not a directory"@),
{
    if is_dir {
        Ok(())
    } else {
        Err(ApiError::BadRequest("not a directory"))
    }
}

/// An entry of a listing: `{name, type}`.
pub open spec fn item_value(d: DirItem) -> JsonView {
    JsonView::Object(
        Map::<Text, JsonView>::empty().insert("name"@, JsonView::Str(d.name@)).insert(
            "type"@,
            JsonView::Str(kind_text(d.is_dir)),
        ),
    )
}

/// The listing of a directory, in the order of the disk.
pub fn readdir(items: &Vec<DirItem>) -> (r: Json)
    ensures
        r@ == JsonView::Array(items@.map_values(|d: DirItem| item_value(d))),
{
    let mut out: Vec<Json> = Vec::new();
    let ghost f = |d: DirItem| item_value(d);
    assert(items@.take(0).map_values(f) =~= Seq::<JsonView>::empty());
    for i in 0..items.len()
        invariant
            f == (|d: DirItem| item_value(d)),
            array_view(out@) == items@.take(i as int).map_values(f),
    {
        let mut o: Vec<(String, Json)> = Vec::new();
        put(&mut o, "name", jstr(items[i].name.as_str()));
        put(&mut o, "type", jstr(kind_str(items[i].is_dir)));
        let j = Json::Object(o);
        proof {
            lemma_array_push(out@, j);
            assert(items@.take(i as int + 1).map_values(f) =~= items@.take(i as int).map_values(
                f,
            ).push(item_value(items@[i as int])));
        }
        out.push(j);
    }
    assert(items@.take(items@.len() as int) =~= items@);
    Json::Array(out)
}

/// The content type of a file that is read: text where UTF-8 is asked for, bytes otherwise. A
/// directory cannot be read.
pub fn read_file(is_dir: bool, encoding: Option<&str>) -> (r: Result<&'static str, ApiError>)
    ensures
        r is Err <==> is_dir,
        r matches Err(e) ==> e@ == ApiErrorView::BadRequest("is a directory"@),
        r matches Ok(t) ==> t@ == (if opt_str(encoding) == Some("utf8"@) || opt_str(encoding)
            == Some("utf-8"@) {
            "text/plain; charset=utf-8"@
        } else {
            "application/octet-stream"@
        }),
{
    if is_dir {
        return Err(ApiError::BadRequest("is a directory"));
    }
    let is_utf8 = match encoding {
        Some(e) => str_eq(e, "utf8") || str_eq(e, "utf-8"),
        None => false,
    };
    if is_utf8 {
        Ok("text/plain; charset=utf-8")
    } else {
        Ok("application/octet-stream")
    }
}

/// Whether a path is there.
pub fn access(exists: bool) -> (r: Result<Json, ApiError>)
    ensures
        json_answer(r) == (if exists {
            Ok::<JsonView, ApiErrorView>(ok_value())
        } else {
            Err::<JsonView, ApiErrorView>(ApiErrorView::NotFound)
        }),
{
    if exists {
        Ok(ok_json())
    } else {
        Err(ApiError::NotFound)
    }
}

// ---- writing ----

/// The bytes that a write puts on disk: base64 where it is marked so, and the text itself
/// otherwise.
pub open spec fn content_bytes(content: Text, base64: bool) -> Result<Seq<u8>, ApiErrorView> {
    if base64 {
        match b64_decoded(content) {
            Some(b) => Ok(b),
            None => Err(ApiErrorView::BadRequest("invalid base64"@)),
        }
    } else {
        Ok(vstd::utf8::encode_utf8(content))
    }
}

/// What a write does: the path that is written and the bytes that are put there.
pub struct WritePlan {
    pub path: String,
    pub bytes: Vec<u8>,
}

/// The write that a request asks for: the path is resolved before the content is read.
pub fn plan_write(
    reg: &VaultRegistry,
    vault: Option<&str>,
    path: &str,
    content: &str,
    base64: bool,
) -> (r: Result<WritePlan, ApiError>)
    ensures
        ({
            let p = meant_path(*reg, opt_str(vault), Some(path@));
            let b = content_bytes(content@, base64);
            match r {
                Ok(w) => p == Ok::<Text, ApiErrorView>(w.path@) && b == Ok::<
                    Seq<u8>,
                    ApiErrorView,
                >(w.bytes@),
                Err(e) => if p is Err {
                    p == Err::<Text, ApiErrorView>(e@)
                } else {
                    b == Err::<Seq<u8>, ApiErrorView>(e@)
                },
            }
        }),
{
    let path = match resolve_q(reg, vault, Some(path)) {
        Ok(p) => p,
        Err(e) => {
            return Err(e);
        },
    };
    let bytes = if base64 {
        match decode(content) {
            Some(b) => b,
            None => {
                return Err(ApiError::BadRequest("invalid base64"));
            },
        }
    } else {
        bytes_of(content)
    };
    Ok(WritePlan { path, bytes })
}

/// The answer to a write: the time and the size that the disk gives for the file.
pub open spec fn written_value(m: Meta) -> JsonView {
    JsonView::Object(
        Map::<Text, JsonView>::empty().insert("ok"@, JsonView::Bool(true)).insert(
            "mtime"@,
            millis_json(modified_or_zero(m) as nat),
        ).insert("size"@, JsonView::Int(m.len as int)),
    )
}

/// The answer to a write.
pub fn write_file(m: &Meta) -> (r: Json)
    ensures
        r@ == written_value(*m),
{
    let mtime: u64 = match m.modified {
        Some(t) => t,
        None => 0,
    };
    let mut o: Vec<(String, Json)> = Vec::new();
    put(&mut o, "ok", Json::Bool(true));
    put(&mut o, "mtime", jmillis(mtime));
    put(&mut o, "size", Json::Uint(m.len));
    Json::Object(o)
}

// ---- removing ----

/// The answer to removing a file: it is enough that the file is not there.
pub fn unlink(removed: Result<(), IoKind>) -> (r: Result<Json, ApiError>)
    ensures
        json_answer(r) == (match removed {
            Ok(()) => Ok::<JsonView, ApiErrorView>(ok_value()),
            Err(IoKind::NotFound) => Ok::<JsonView, ApiErrorView>(ok_value()),
            Err(k) => Err::<JsonView, ApiErrorView>(ApiErrorView::Io(k)),
        }),
{
    match removed {
        Ok(()) => Ok(ok_json()),
        Err(IoKind::NotFound) => Ok(ok_json()),
        Err(k) => Err(ApiError::Io(k)),
    }
}

/// What a removal does.
#[derive(Clone, Copy, PartialEq, Eq, Debug, Structural)]
pub enum RmAction {
    /// Nothing: the path is not there.
    Nothing,
    /// Remove the directory and all in it.
    RemoveTree,
    /// Remove the directory, which must be empty.
    RemoveDir,
    /// Remove the file.
    RemoveFile,
}

/// What a removal does, given what the disk says of the path: whether it is a directory, or
/// the error. Only `recursive=true` takes a directory that is not empty.
pub fn rm(found: Result<bool, IoKind>, recursive: Option<&str>) -> (r: Result<RmAction, ApiError>)
    ensures
        match found {
            Err(IoKind::NotFound) => r == Ok::<RmAction, ApiError>(RmAction::Nothing),
            Err(k) => r matches Err(e) && e@ == ApiErrorView::Io(k),
            Ok(is_dir) => r == Ok::<RmAction, ApiError>(
                if !is_dir {
                    RmAction::RemoveFile
                } else if opt_str(recursive) == Some("true"@) {
                    RmAction::RemoveTree
                } else {
                    RmAction::RemoveDir
                },
            ),
        },
{
    let is_dir = match found {
        Ok(d) => d,
        Err(IoKind::NotFound) => {
            return Ok(RmAction::Nothing);
        },
        Err(k) => {
            return Err(ApiError::Io(k));
        },
    };
    let whole = match recursive {
        Some(v) => str_eq(v, "true"),
        None => false,
    };
    Ok(
        if !is_dir {
            RmAction::RemoveFile
        } else if whole {
            RmAction::RemoveTree
        } else {
            RmAction::RemoveDir
        },
    )
}

// ---- reading many ----

/// The most paths that one request reads.
pub const MAX_BATCH: usize = 1000;

/// The paths that a batch reads: of the first [`MAX_BATCH`] those that stay in the vault, each
/// with the path it means.
pub open spec fn batch_targets(root: Text, rels: Seq<Text>) -> Seq<(Text, Text)>
    decreases rels.len(),
{
    if rels.len() == 0 {
        Seq::empty()
    } else {
        let front = batch_targets(root, rels.drop_last());
        match path_in_vault(root, rels.last()) {
            Ok(p) => front.push((rels.last(), p)),
            Err(_) => front,
        }
    }
}

/// The first `n` of a list, or all where it is shorter.
pub open spec fn first_of(v: Seq<Text>, n: nat) -> Seq<Text> {
    if v.len() <= n {
        v
    } else {
        v.take(n as int)
    }
}

/// Pairs of texts.
pub open spec fn text_pairs(v: Seq<(String, String)>) -> Seq<(Text, Text)> {
    v.map_values(|p: (String, String)| (p.0@, p.1@))
}

/// The paths that a batch reads.
pub fn plan_batch(reg: &VaultRegistry, vault: Option<&str>, paths: &Vec<String>) -> (r: Result<
    Vec<(String, String)>,
    ApiError,
>)
    ensures
        match r {
            Ok(v) => root_of(*reg, opt_str(vault)) is Ok && text_pairs(v@) == batch_targets(
                root_of(*reg, opt_str(vault))->Ok_0,
                first_of(texts(paths@), MAX_BATCH as nat),
            ),
            Err(e) => root_of(*reg, opt_str(vault)) == Err::<Text, ApiErrorView>(e@),
        },
{
    let root = match vault_root(reg, vault) {
        Ok(root) => root,
        Err(e) => {
            return Err(e);
        },
    };
    let n: usize = if paths.len() <= MAX_BATCH {
        paths.len()
    } else {
        MAX_BATCH
    };
    let ghost all = texts(paths@).take(n as int);
    assert(all =~= first_of(texts(paths@), MAX_BATCH as nat));
    let mut out: Vec<(String, String)> = Vec::new();
    assert(all.take(0) =~= Seq::<Text>::empty());
    assert(text_pairs(out@) =~= Seq::<(Text, Text)>::empty());
    for i in 0..n
        invariant
            n <= paths@.len(),
            all == texts(paths@).take(n as int),
            text_pairs(out@) == batch_targets(root@, all.take(i as int)),
    {
        assert(all.take(i as int + 1).drop_last() =~= all.take(i as int));
        assert(all[i as int] == paths@[i as int]@);
        let ghost before = text_pairs(out@);
        if let Ok(p) = resolve_in_vault(root.as_str(), paths[i].as_str()) {
            let ghost pv = p@;
            out.push((paths[i].clone(), p));
            assert(text_pairs(out@) =~= before.push((paths@[i as int]@, pv)));
        }
    }
    assert(all.take(n as int) =~= all);
    Ok(out)
}

/// What was read of a list of paths: the text, where the file could be read as text.
pub open spec fn read_texts(v: Seq<(String, Option<String>)>) -> Seq<(Text, Option<Text>)> {
    v.map_values(|p: (String, Option<String>)| (p.0@, opt_text(p.1)))
}

/// The files of a batch, by the path of the request: those that could be read.
pub open spec fn batch_files(v: Seq<(Text, Option<Text>)>) -> Map<Text, JsonView>
    decreases v.len(),
{
    if v.len() == 0 {
        Map::empty()
    } else {
        let front = batch_files(v.drop_last());
        match v.last().1 {
            Some(t) => front.insert(v.last().0, JsonView::Str(t)),
            None => front,
        }
    }
}

/// The answer to a batch: `{"files": {path: text}}`.
pub fn batch_read(read: &Vec<(String, Option<String>)>) -> (r: Json)
    ensures
        r@ == JsonView::Object(
            Map::<Text, JsonView>::empty().insert(
                "files"@,
                JsonView::Object(batch_files(read_texts(read@))),
            ),
        ),
{
    let ghost all = read_texts(read@);
    let mut files: Vec<(String, Json)> = Vec::new();
    assert(all.take(0) =~= Seq::<(Text, Option<Text>)>::empty());
    for i in 0..read.len()
        invariant
            all == read_texts(read@),
            object_view(files@) == batch_files(all.take(i as int)),
    {
        assert(all.take(i as int + 1).drop_last() =~= all.take(i as int));
        assert(all[i as int] == (read@[i as int].0@, opt_text(read@[i as int].1)));
        if let Some(t) = &read[i].1 {
            put(&mut files, read[i].0.as_str(), jstr(t.as_str()));
        }
    }
    assert(all.take(all.len() as int) =~= all);
    let mut o: Vec<(String, Json)> = Vec::new();
    put(&mut o, "files", Json::Object(files));
    Json::Object(o)
}

// ---- laws ----

/// A name that leads one down: not empty, no separator in it, and neither `.` nor `..`.
pub open spec fn is_plain_name(t: Text) -> bool {
    t.len() > 0 && !t.contains('/') && t != seq!['.'] && t != seq!['.', '.']
}

/// Whatever path a request names, what it is resolved to lies in the vault: it is reached from
/// the root by plain names alone, or the request is refused.
pub proof fn law_resolved_paths_stay_in_the_vault(root: Text, rel: Text)
    ensures
        match path_in_vault(root, rel) {
            Ok(p) => exists|names: Seq<Text>| #[trigger] path_below(root, names) == p && (forall|
                i: int,
            |
                0 <= i < names.len() ==> is_plain_name(#[trigger] names[i])),
            Err(e) => e == ApiErrorView::BadRequest("path escapes vault"@) || e
                == ApiErrorView::BadRequest("absolute path not allowed"@),
        },
{
    let parts = split(stripped(rel), '/');
    if let Some(names) = resolved(parts) {
        assert forall|i: int| 0 <= i < parts.len() implies !(#[trigger] parts[i]).contains('/') by {
            lemma_split_pieces(stripped(rel), '/', i);
        }
        lemma_names_are_plain(parts);
        if !is_absolute(rel) {
            assert(path_below(root, names) == path_in_vault(root, rel)->Ok_0);
        }
    }
}

proof fn lemma_names_are_plain(parts: Seq<Text>)
    requires
        resolved(parts) is Some,
        forall|i: int| 0 <= i < parts.len() ==> !(#[trigger] parts[i]).contains('/'),
    ensures
        forall|i: int|
            0 <= i < resolved(parts)->0.len() ==> is_plain_name(#[trigger] resolved(parts)->0[i]),
    decreases parts.len(),
{
    if parts.len() > 0 {
        let front = parts.drop_last();
        assert forall|i: int| 0 <= i < front.len() implies !(#[trigger] front[i]).contains('/') by {
            assert(front[i] == parts[i]);
        }
        assert(!parts[parts.len() - 1].contains('/'));
        lemma_names_are_plain(front);
    }
}

/// No absolute path is ever resolved, whatever comes behind its slash.
pub proof fn law_absolute_paths_are_refused(root: Text, rest: Text)
    ensures
        path_in_vault(root, seq!['/'] + rest) == Err::<Text, ApiErrorView>(
            ApiErrorView::BadRequest("absolute path not allowed"@),
        ),
{
}

/// What is written as base64 is put on disk as the bytes that were encoded, and what is written
/// as text as its UTF-8 bytes.
pub proof fn law_written_bytes(b: Seq<u8>, t: Text)
    ensures
        content_bytes(crate::base64_text::b64(b), true) == Ok::<Seq<u8>, ApiErrorView>(b),
        content_bytes(t, false) == Ok::<Seq<u8>, ApiErrorView>(vstd::utf8::encode_utf8(t)),
{
    crate::base64_text::lemma_b64_round_trip(b, t);
}

proof fn lemma_no_strip(t: Text)
    requires
        t.len() > 0,
        t[0] != '/',
        t[0] != '\\',
    ensures
        stripped(t) == t,
        !is_absolute(t),
{
}

proof fn lemma_resolved_names(names: Seq<Text>)
    requires
        forall|i: int|
            0 <= i < names.len() ==> (#[trigger] names[i]).len() > 0 && names[i] != seq!['.']
                && names[i] != seq!['.', '.'],
    ensures
        resolved(names) == Some(names),
    decreases names.len(),
{
    if names.len() > 0 {
        let front = names.drop_last();
        assert forall|i: int| 0 <= i < front.len() implies (#[trigger] front[i]).len() > 0
            && front[i] != seq!['.'] && front[i] != seq!['.', '.'] by {
            assert(front[i] == names[i]);
        }
        lemma_resolved_names(front);
        assert(names[names.len() - 1] == names.last());
        assert(front.push(names.last()) =~= names);
    } else {
        assert(names =~= Seq::<Text>::empty());
    }
}

proof fn lemma_path_text(root: Text, names: Seq<Text>)
    requires
        root.len() > 0,
        root.last() != '/',
        names.len() > 0,
        forall|i: int|
            0 <= i < names.len() ==> (#[trigger] names[i]).len() > 0 && !names[i].contains('/'),
    ensures
        path_below(root, names) == root + seq!['/'] + list_text(names, '/'),
        path_below(root, names).last() != '/',
    decreases names.len(),
{
    let front = names.drop_last();
    let last = names.last();
    assert(names[names.len() - 1] == last);
    assert(last.contains(last.last())) by {
        assert(last[last.len() - 1] == last.last());
    }
    if names.len() == 1 {
        assert(path_below(root, front) == root);
        assert(path_below(root, names) =~= root + seq!['/'] + list_text(names, '/'));
    } else {
        assert forall|i: int| 0 <= i < front.len() implies (#[trigger] front[i]).len() > 0
            && !front[i].contains('/') by {
            assert(front[i] == names[i]);
        }
        lemma_path_text(root, front);
        assert(path_below(root, names) =~= root + seq!['/'] + list_text(names, '/'));
    }
    assert(path_below(root, names).last() == last.last());
}

/// A path that is made of plain names with slashes between them means the root, a slash, and that
/// same path: no name is left out, none is added, and their order stays. A name is plain if it is
/// not empty, holds no slash, and is neither one dot nor two. So two such paths never mean the
/// same.
pub proof fn law_plain_paths_lead_where_they_say(root: Text, names: Seq<Text>)
    requires
        root.len() > 0,
        root.last() != '/',
        names.len() > 0,
        forall|i: int|
            0 <= i < names.len() ==> (#[trigger] names[i]).len() > 0 && !names[i].contains('/')
                && names[i] != seq!['.'] && names[i] != seq!['.', '.'],
        names[0][0] != '\\',
    ensures
        path_in_vault(root, list_text(names, '/')) == Ok::<Text, ApiErrorView>(
            root + seq!['/'] + list_text(names, '/'),
        ),
{
    lemma_joined_split(names, '/');
    lemma_first_char(names);
    assert(names[0].contains(names[0][0]));
    lemma_no_strip(list_text(names, '/'));
    lemma_resolved_names(names);
    lemma_path_text(root, names);
}

proof fn lemma_first_char(names: Seq<Text>)
    requires
        names.len() > 0,
        names[0].len() > 0,
    ensures
        list_text(names, '/').len() > 0,
        list_text(names, '/')[0] == names[0][0],
    decreases names.len(),
{
    if names.len() > 1 {
        lemma_first_char(names.drop_last());
    }
}

proof fn lemma_resolved_same(p: Seq<Text>, q: Seq<Text>, more: Seq<Text>)
    requires
        resolved(p) == resolved(q),
    ensures
        resolved(p + more) == resolved(q + more),
    decreases more.len(),
{
    if more.len() > 0 {
        lemma_resolved_same(p, q, more.drop_last());
        assert((p + more).drop_last() =~= p + more.drop_last());
        assert((q + more).drop_last() =~= q + more.drop_last());
        assert((p + more).last() == more.last() && (q + more).last() == more.last());
    } else {
        assert(p + more =~= p);
        assert(q + more =~= q);
    }
}

/// Wherever it stands in a path, a part that is empty or one dot changes nothing, and a plain name
/// with two dots behind it changes nothing either.
pub proof fn law_dots_in_paths(root: Text, a: Text, x: Text, b: Text)
    requires
        a.len() > 0,
        a[0] != '/',
        a[0] != '\\',
        x.len() > 0,
        !x.contains('/'),
        x != seq!['.'],
        x != seq!['.', '.'],
    ensures
        path_in_vault(root, a + seq!['/', '/'] + b) == path_in_vault(root, a + seq!['/'] + b),
        path_in_vault(root, a + seq!['/', '.', '/'] + b) == path_in_vault(root, a + seq!['/'] + b),
        path_in_vault(root, a + seq!['/'] + x + seq!['/', '.', '.', '/'] + b) == path_in_vault(
            root,
            a + seq!['/'] + b,
        ),
{
    let plain = a.push('/') + b;
    let empty = Seq::<char>::empty();
    let dot = seq!['.'];
    let up = seq!['.', '.'];
    assert(a + seq!['/'] + b =~= plain);
    lemma_no_strip(plain);
    lemma_split_concat(a, b, '/');
    lemma_split_whole(empty, '/');
    lemma_split_whole(dot, '/');
    lemma_split_whole(up, '/');
    lemma_split_whole(x, '/');
    let pa = split(a, '/');
    let pb = split(b, '/');
    // an empty part
    let t1 = a.push('/') + empty;
    lemma_split_concat(a, empty, '/');
    lemma_split_concat(t1, b, '/');
    assert(a + seq!['/', '/'] + b =~= t1.push('/') + b);
    lemma_no_strip(t1.push('/') + b);
    assert((pa + seq![empty]).drop_last() =~= pa);
    assert(resolved(pa + seq![empty]) == resolved(pa));
    lemma_resolved_same(pa + seq![empty], pa, pb);
    // one dot
    let t2 = a.push('/') + dot;
    lemma_split_concat(a, dot, '/');
    lemma_split_concat(t2, b, '/');
    assert(a + seq!['/', '.', '/'] + b =~= t2.push('/') + b);
    lemma_no_strip(t2.push('/') + b);
    assert((pa + seq![dot]).drop_last() =~= pa);
    assert(resolved(pa + seq![dot]) == resolved(pa));
    lemma_resolved_same(pa + seq![dot], pa, pb);
    // a name and two dots
    let t3 = a.push('/') + x;
    let t4 = t3.push('/') + up;
    lemma_split_concat(a, x, '/');
    lemma_split_concat(t3, up, '/');
    lemma_split_concat(t4, b, '/');
    assert(a + seq!['/'] + x + seq!['/', '.', '.', '/'] + b =~= t4.push('/') + b);
    lemma_no_strip(t4.push('/') + b);
    let px = pa + seq![x];
    assert(px.drop_last() =~= pa);
    assert((px + seq![up]).drop_last() =~= px);
    assert(up[1] == '.');
    assert(up != dot) by {
        assert(up.len() == 2 && dot.len() == 1);
    }
    assert(px.last() == x && (px + seq![up]).last() == up);
    if let Some(n) = resolved(pa) {
        assert(resolved(px) == Some(n.push(x)));
        assert(n.push(x).drop_last() =~= n);
    } else {
        assert(resolved(px) is None);
    }
    assert(resolved(px + seq![up]) == resolved(pa));
    lemma_resolved_same(px + seq![up], pa, pb);
}

/// Two dots at the front of a path, or alone, lead out of the vault, whatever comes behind them.
/// The empty path and one dot mean the root.
pub proof fn law_paths_at_the_root(root: Text, b: Text)
    ensures
        path_in_vault(root, seq!['.', '.']) == Err::<Text, ApiErrorView>(
            ApiErrorView::BadRequest("path escapes vault"@),
        ),
        path_in_vault(root, seq!['.', '.', '/'] + b) == Err::<Text, ApiErrorView>(
            ApiErrorView::BadRequest("path escapes vault"@),
        ),
        path_in_vault(root, Seq::empty()) == Ok::<Text, ApiErrorView>(root),
        path_in_vault(root, seq!['.']) == Ok::<Text, ApiErrorView>(root),
{
    reveal_with_fuel(resolved, 3);
    let up = seq!['.', '.'];
    let dot = seq!['.'];
    lemma_split_whole(up, '/');
    lemma_split_whole(dot, '/');
    lemma_split_whole(Seq::empty(), '/');
    lemma_no_strip(up);
    lemma_no_strip(dot);
    assert(up.len() == 2 && dot.len() == 1);
    assert(seq![up].drop_last() =~= Seq::<Text>::empty());
    assert(resolved(seq![up]) is None);
    let t = up.push('/') + b;
    assert(seq!['.', '.', '/'] + b =~= t);
    lemma_no_strip(t);
    lemma_split_concat(up, b, '/');
    let parts = split(t, '/');
    if resolved(parts) is Some {
        lemma_resolved_prefix(parts, 1);
        assert(parts.take(1) =~= seq![up]);
    }
    assert(seq![dot].drop_last() =~= Seq::<Text>::empty());
    assert(seq![Seq::<char>::empty()].drop_last() =~= Seq::<Text>::empty());
}

/// A backslash in front of a path counts for nothing; elsewhere it is a character like any other.
pub proof fn law_backslash_in_front(root: Text, rel: Text)
    requires
        rel.len() > 0 ==> rel[0] != '/',
    ensures
        path_in_vault(root, seq!['\\'] + rel) == path_in_vault(root, rel),
{
    assert((seq!['\\'] + rel).drop_first() =~= rel);
}

/// A request is served in the vault that it names and in no other: a path of plain names means the
/// root of that vault, a slash, and the path. Without a vault or a path, or in a vault that is not
/// known, no path is meant.
pub proof fn law_requests_stay_in_their_vault(
    reg: VaultRegistry,
    vault: Text,
    path: Option<Text>,
    names: Seq<Text>,
)
    requires
        reg.vaults()[vault].path().len() > 0,
        reg.vaults()[vault].path().last() != '/',
        names.len() > 0,
        forall|i: int|
            0 <= i < names.len() ==> (#[trigger] names[i]).len() > 0 && !names[i].contains('/')
                && names[i] != seq!['.'] && names[i] != seq!['.', '.'],
        names[0][0] != '\\',
    ensures
        reg.vaults().contains_key(vault) ==> meant_path(
            reg,
            Some(vault),
            Some(list_text(names, '/')),
        ) == Ok::<Text, ApiErrorView>(
            reg.vaults()[vault].path() + seq!['/'] + list_text(names, '/'),
        ),
        reg.vaults().contains_key(vault) ==> meant_path(reg, Some(vault), None) == Err::<
            Text,
            ApiErrorView,
        >(ApiErrorView::BadRequest("path required"@)),
        !reg.vaults().contains_key(vault) ==> meant_path(reg, Some(vault), path) == Err::<
            Text,
            ApiErrorView,
        >(ApiErrorView::NotFound),
        meant_path(reg, None, path) == Err::<Text, ApiErrorView>(
            ApiErrorView::BadRequest("vault required"@),
        ),
{
    law_plain_paths_lead_where_they_say(reg.vaults()[vault].path(), names);
}

/// What a client is told of a path: its kind, its size, when it was modified, and when it was
/// created, or else when it was modified; a time that is not known is told as zero.
pub proof fn law_stat_tells_what_the_disk_says(m: Meta)
    ensures
        stat_value(m) is Object,
        ({
            let o = stat_value(m)->Object_0;
            &&& o.dom() == set!["type"@, "size"@, "mtime"@, "ctime"@]
            &&& m.is_dir ==> o["type"@] == JsonView::Str("directory"@)
            &&& !m.is_dir ==> o["type"@] == JsonView::Str("file"@)
            &&& o["size"@] == JsonView::Int(m.len as int)
            &&& m.modified matches Some(t) ==> o["mtime"@] == millis_json(t as nat)
            &&& m.modified is None ==> o["mtime"@] == millis_json(0)
            &&& m.created matches Some(t) ==> o["ctime"@] == millis_json(t as nat)
            &&& m.created is None ==> o["ctime"@] == o["mtime"@]
        }),
        written_value(m) is Object,
        ({
            let o = written_value(m)->Object_0;
            &&& o.dom() == set!["ok"@, "mtime"@, "size"@]
            &&& o["ok"@] == JsonView::Bool(true)
            &&& o["size"@] == JsonView::Int(m.len as int)
            &&& m.modified matches Some(t) ==> o["mtime"@] == millis_json(t as nat)
            &&& m.modified is None ==> o["mtime"@] == millis_json(0)
        }),
{
    reveal_strlit("type");
    reveal_strlit("size");
    reveal_strlit("mtime");
    reveal_strlit("ctime");
    reveal_strlit("ok");
    assert("type"@.len() == 4);
    assert("size"@.len() == 4);
    assert("mtime"@.len() == 5);
    assert("ctime"@.len() == 5);
    assert("ok"@.len() == 2);
    assert("type"@[0] != "size"@[0]);
    assert("mtime"@[0] != "ctime"@[0]);
    assert(stat_value(m)->Object_0.dom() =~= set!["type"@, "size"@, "mtime"@, "ctime"@]);
    assert(written_value(m)->Object_0.dom() =~= set!["ok"@, "mtime"@, "size"@]);
}

/// An entry of a listing is told by its name and its kind.
pub proof fn law_listings_tell_name_and_kind(d: DirItem)
    ensures
        item_value(d) is Object,
        item_value(d)->Object_0.dom() == set!["name"@, "type"@],
        item_value(d)->Object_0["name"@] == JsonView::Str(d.name@),
        d.is_dir ==> item_value(d)->Object_0["type"@] == JsonView::Str("directory"@),
        !d.is_dir ==> item_value(d)->Object_0["type"@] == JsonView::Str("file"@),
{
    reveal_strlit("name");
    reveal_strlit("type");
    assert("name"@.len() == 4);
    assert("type"@.len() == 4);
    assert("name"@[0] != "type"@[0]);
    assert(item_value(d)->Object_0.dom() =~= set!["name"@, "type"@]);
}

/// What is missing is answered with 404, what is forbidden with 403, what is malformed with 400
/// and its own message, and any other trouble with the disk with 500. No answer but that to a
/// malformed request depends on the request.
pub proof fn law_errors_and_their_status(m: Text)
    ensures
        error_failure(ApiErrorView::BadRequest(m)).status == 400,
        error_failure(ApiErrorView::BadRequest(m)).message == m,
        error_failure(ApiErrorView::NotFound).status == 404,
        error_failure(ApiErrorView::NotFound).message == "not found"@,
        error_failure(ApiErrorView::Io(IoKind::NotFound)).status == 404,
        error_failure(ApiErrorView::Io(IoKind::NotFound)).message == "not found"@,
        error_failure(ApiErrorView::Io(IoKind::PermissionDenied)).status == 403,
        error_failure(ApiErrorView::Io(IoKind::PermissionDenied)).message == "permission denied"@,
        error_failure(ApiErrorView::Io(IoKind::Other)).status == 500,
        error_failure(ApiErrorView::Io(IoKind::Other)).message == "io error"@,
{
}

/// A batch reads each path that stays in the vault, under the name by which it was asked for, in
/// the order of the request, and passes over the others. It takes the first thousand paths.
pub proof fn law_a_batch_reads_path_by_path(root: Text, rels: Seq<Text>, rel: Text)
    ensures
        batch_targets(root, Seq::empty()) == Seq::<(Text, Text)>::empty(),
        path_in_vault(root, rel) matches Ok(p) ==> batch_targets(root, rels.push(rel))
            == batch_targets(root, rels) + seq![(rel, p)],
        path_in_vault(root, rel) is Err ==> batch_targets(root, rels.push(rel)) == batch_targets(
            root,
            rels,
        ),
        MAX_BATCH == 1000,
        rels.len() <= 1000 ==> first_of(rels, MAX_BATCH as nat) == rels,
        rels.len() > 1000 ==> first_of(rels, MAX_BATCH as nat).len() == 1000 && forall|i: int|
            0 <= i < 1000 ==> #[trigger] first_of(rels, MAX_BATCH as nat)[i] == rels[i],
{
    assert(rels.push(rel).drop_last() =~= rels);
    if let Ok(p) = path_in_vault(root, rel) {
        assert(batch_targets(root, rels).push((rel, p)) =~= batch_targets(root, rels) + seq![
            (rel, p),
        ]);
    }
}

/// The answer to a batch holds the text of every file that could be read, under its own path; of
/// two with one path the later one. A file that could not be read changes nothing.
pub proof fn law_a_batch_answers_file_by_file(v: Seq<(Text, Option<Text>)>, k: Text, t: Text)
    ensures
        batch_files(Seq::empty()) == Map::<Text, JsonView>::empty(),
        batch_files(v.push((k, Some(t)))) == batch_files(v).insert(k, JsonView::Str(t)),
        batch_files(v.push((k, None))) == batch_files(v),
{
    assert(v.push((k, Some(t))).drop_last() =~= v);
    assert(v.push((k, None::<Text>)).drop_last() =~= v);
}

/// What is written as text goes to disk as that text, whatever it looks like; what is written as
/// base64 goes to disk as the bytes that the text encodes, and is refused where it encodes none.
pub proof fn law_written_content(content: Text, b: Seq<u8>)
    ensures
        content_bytes(content, false) == Ok::<Seq<u8>, ApiErrorView>(
            vstd::utf8::encode_utf8(content),
        ),
        content_bytes(content, true) == Ok::<Seq<u8>, ApiErrorView>(b) ==> content
            == crate::base64_text::b64(b),
        content_bytes(content, true) matches Err(e) ==> e == ApiErrorView::BadRequest(
            "invalid base64"@,
        ) && content != crate::base64_text::b64(b),
        content == crate::base64_text::b64(b) ==> content_bytes(content, true) == Ok::<
            Seq<u8>,
            ApiErrorView,
        >(b),
{
    crate::base64_text::lemma_b64_round_trip(b, content);
}

/// An error says what it holds, and an answer says its own text or body, or its own error.
pub proof fn law_what_answers_say(
    m: &'static str,
    k: IoKind,
    r: Result<String, ApiError>,
    j: Result<Json, ApiError>,
)
    ensures
        ApiError::BadRequest(m)@ == ApiErrorView::BadRequest(m@),
        ApiError::NotFound@ == ApiErrorView::NotFound,
        ApiError::Io(k)@ == ApiErrorView::Io(k),
        r matches Ok(s) ==> text_answer(r) == Ok::<Text, ApiErrorView>(s@),
        r matches Err(e) ==> text_answer(r) == Err::<Text, ApiErrorView>(e@),
        j matches Ok(v) ==> json_answer(j) == Ok::<JsonView, ApiErrorView>(v@),
        j matches Err(e) ==> json_answer(j) == Err::<JsonView, ApiErrorView>(e@),
{
}

/// Pairs of strings say their own texts, in order.
pub proof fn law_what_pairs_say(v: Seq<(String, String)>, w: Seq<(String, Option<String>)>, i: int)
    ensures
        text_pairs(v).len() == v.len(),
        0 <= i < v.len() ==> text_pairs(v)[i] == (v[i].0@, v[i].1@),
        read_texts(w).len() == w.len(),
        0 <= i < w.len() ==> read_texts(w)[i].0 == w[i].0@ && (w[i].1 matches Some(t) ==> read_texts(
            w,
        )[i].1 == Some(t@)) && (w[i].1 is None ==> read_texts(w)[i].1 is None),
{
}

/// A request must name a vault that is known, and means the root of that vault.
pub proof fn law_the_root_of_a_request(reg: VaultRegistry, v: Text)
    ensures
        reg.vaults().contains_key(v) ==> root_of(reg, Some(v)) == Ok::<Text, ApiErrorView>(
            reg.vaults()[v].path(),
        ),
        !reg.vaults().contains_key(v) ==> root_of(reg, Some(v)) == Err::<Text, ApiErrorView>(
            ApiErrorView::NotFound,
        ),
        root_of(reg, None) == Err::<Text, ApiErrorView>(ApiErrorView::BadRequest("vault required"@)),
{
}

} // verus!
