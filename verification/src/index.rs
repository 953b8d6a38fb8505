//! The tree of a vault, kept in memory: how a walk of the disk becomes a tree, how changed paths
//! are applied to it, which events they make, and its JSON form.
//!
//! The caller walks the disk and watches it; times are milliseconds since the epoch.

use vstd::prelude::*;

use crate::json::{jmillis, json_text, jstr, millis_json, object_view, put, to_text, to_value, value_model, Json, JsonView};
use crate::strmap::{map_of, StrMap};
use crate::text::{has_prefix, replace, replace_all, starts_with, texts, Text};

verus! {

/// The kind of a node.
#[derive(Debug, Clone, Copy, PartialEq, Eq, Structural)]
pub enum NodeType {
    File,
    Directory,
}

/// One entry of a tree. Size and times are there for files only.
#[derive(Debug, Clone, Copy)]
pub struct TreeEntry {
    pub node_type: NodeType,
    pub size: Option<u64>,
    /// Time of modification.
    pub mtime: Option<u64>,
    /// Time of creation.
    pub ctime: Option<u64>,
}

/// The tree of a vault: relative path to entry.
pub type Tree = StrMap<TreeEntry>;

/// What the disk says of a path.
#[derive(Clone, Copy)]
pub struct Meta {
    pub is_dir: bool,
    pub len: u64,
    pub modified: Option<u64>,
    pub created: Option<u64>,
}

/// A path that was met, and what the disk says of it: `rel` is the path below the vault root,
/// where it lies there, and `meta` is missing where the disk has nothing to say.
pub struct PathState {
    pub rel: Option<String>,
    pub meta: Option<Meta>,
}

/// What a path state says.
pub struct PathStateView {
    pub rel: Option<Text>,
    pub meta: Option<Meta>,
}

impl PathState {
    /// What the path state says.
    pub open spec fn view(self) -> PathStateView {
        PathStateView { rel: crate::text::opt_text(self.rel), meta: self.meta }
    }
}

/// The path states of a list.
pub open spec fn states(v: Seq<PathState>) -> Seq<PathStateView> {
    v.map_values(|p: PathState| p@)
}

/// The key of a path: `/` for every backslash.
pub open spec fn posix(t: Text) -> Text {
    replace(t, seq!['\\'], seq!['/'])
}

/// The key of a path state: it lies below the root and is not the root itself.
pub open spec fn key_of(p: PathStateView) -> Option<Text> {
    match p.rel {
        Some(r) => if r.len() > 0 {
            Some(posix(r))
        } else {
            None
        },
        None => None,
    }
}

/// The entry for what the disk says: a directory has a kind only; a file that has no time of
/// creation takes that of its modification.
pub open spec fn node_of(m: Meta) -> TreeEntry {
    if m.is_dir {
        TreeEntry { node_type: NodeType::Directory, size: None, mtime: None, ctime: None }
    } else {
        TreeEntry {
            node_type: NodeType::File,
            size: Some(m.len),
            mtime: m.modified,
            ctime: if m.created is Some {
                m.created
            } else {
                m.modified
            },
        }
    }
}

/// The entry for what the disk says.
pub fn entry_of(m: &Meta) -> (r: TreeEntry)
    ensures
        r == node_of(*m),
        m.is_dir <==> r.node_type == NodeType::Directory,
        m.is_dir ==> r.size is None && r.mtime is None && r.ctime is None,
        !m.is_dir ==> r.size == Some(m.len) && r.mtime == m.modified,
        !m.is_dir ==> r.ctime == (if m.created is Some {
            m.created
        } else {
            m.modified
        }),
{
    if m.is_dir {
        TreeEntry { node_type: NodeType::Directory, size: None, mtime: None, ctime: None }
    } else {
        let ctime = match m.created {
            Some(t) => Some(t),
            None => m.modified,
        };
        TreeEntry { node_type: NodeType::File, size: Some(m.len), mtime: m.modified, ctime }
    }
}

/// The key of a path state.
fn read_key(p: &PathState) -> (r: Option<String>)
    ensures
        crate::text::opt_text(r) == key_of(p@),
{
    match &p.rel {
        Some(rel) => if rel.as_str().is_empty() {
            None
        } else {
            proof {
                reveal_strlit("\\");
                reveal_strlit("/");
                assert("\\"@ =~= seq!['\\']);
                assert("/"@ =~= seq!['/']);
            }
            Some(replace_all(rel.as_str(), "\\", "/"))
        },
        None => None,
    }
}

// ---- building ----

/// The tree of a walk: an entry for every path that has a key and is known to the disk. Of two
/// paths with one key the later one counts.
pub open spec fn walked(found: Seq<PathStateView>) -> Map<Text, TreeEntry>
    decreases found.len(),
{
    if found.len() == 0 {
        Map::empty()
    } else {
        let front = walked(found.drop_last());
        match (key_of(found.last()), found.last().meta) {
            (Some(k), Some(m)) => front.insert(k, node_of(m)),
            _ => front,
        }
    }
}

/// Builds the tree of a walk.
pub fn build_tree(found: &Vec<PathState>) -> (r: Tree)
    ensures
        r@ == walked(states(found@)),
{
    let mut tree: Tree = StrMap::new();
    let ghost all = states(found@);
    assert(all.take(0) =~= Seq::<PathStateView>::empty());
    for i in 0..found.len()
        invariant
            all == states(found@),
            tree@ == walked(all.take(i as int)),
    {
        assert(all.take(i as int + 1).drop_last() =~= all.take(i as int));
        assert(all[i as int] == found@[i as int]@);
        if let (Some(k), Some(m)) = (read_key(&found[i]), &found[i].meta) {
            tree.insert(k, entry_of(m));
        }
    }
    assert(all.take(all.len() as int) =~= all);
    tree
}

// ---- JSON ----

/// The size and the times of an entry, as far as they are known, put into `o`.
pub open spec fn with_stat(o: Map<Text, JsonView>, e: TreeEntry) -> Map<Text, JsonView> {
    let o = match e.size {
        Some(n) => o.insert("size"@, JsonView::Int(n as int)),
        None => o,
    };
    let o = match e.mtime {
        Some(t) => o.insert("mtime"@, millis_json(t as nat)),
        None => o,
    };
    match e.ctime {
        Some(t) => o.insert("ctime"@, millis_json(t as nat)),
        None => o,
    }
}

/// An entry on the wire: a directory is `{"type":"directory"}`, a file has its size and times
/// beside its type.
pub open spec fn entry_value(e: TreeEntry) -> JsonView {
    match e.node_type {
        NodeType::Directory => JsonView::Object(
            Map::<Text, JsonView>::empty().insert("type"@, JsonView::Str("directory"@)),
        ),
        NodeType::File => JsonView::Object(
            with_stat(
                Map::<Text, JsonView>::empty().insert("type"@, JsonView::Str("file"@)),
                e,
            ),
        ),
    }
}

/// A tree on the wire: an object keyed by path.
pub open spec fn tree_value(t: Map<Text, TreeEntry>) -> JsonView {
    JsonView::Object(t.map_values(|e: TreeEntry| entry_value(e)))
}

/// Puts the size and the times of an entry.
fn put_stat(o: &mut Vec<(String, Json)>, e: &TreeEntry)
    ensures
        object_view(final(o)@) == with_stat(object_view(old(o)@), *e),
{
    if let Some(n) = e.size {
        put(o, "size", Json::Uint(n));
    }
    if let Some(t) = e.mtime {
        put(o, "mtime", jmillis(t));
    }
    if let Some(t) = e.ctime {
        put(o, "ctime", jmillis(t));
    }
}

/// An entry on the wire.
fn entry_json(e: &TreeEntry) -> (r: Json)
    ensures
        r@ == entry_value(*e),
{
    let mut o: Vec<(String, Json)> = Vec::new();
    match e.node_type {
        NodeType::Directory => {
            put(&mut o, "type", jstr("directory"));
        },
        NodeType::File => {
            put(&mut o, "type", jstr("file"));
            put_stat(&mut o, e);
        },
    }
    Json::Object(o)
}

/// A tree on the wire.
pub fn tree_json(tree: &Tree) -> (r: Json)
    ensures
        r@ == tree_value(tree@),
{
    let n: usize = tree.len();
    let mut o: Vec<(String, Json)> = Vec::new();
    let ghost all = tree.pairs();
    let ghost f = |e: TreeEntry| entry_value(e);
    assert(all.take(0) =~= Seq::<(String, TreeEntry)>::empty());
    assert(map_of(all.take(0)).map_values(f) =~= Map::<Text, JsonView>::empty());
    for i in 0..n
        invariant
            n == all.len(),
            all == tree.pairs(),
            f == (|e: TreeEntry| entry_value(e)),
            object_view(o@) == map_of(all.take(i as int)).map_values(f),
    {
        let e = tree.value_at(i);
        put(&mut o, tree.key_at(i).as_str(), entry_json(e));
        proof {
            let before = map_of(all.take(i as int));
            assert(all.take(i as int + 1).drop_last() =~= all.take(i as int));
            assert(before.insert(all[i as int].0@, all[i as int].1).map_values(f)
                =~= before.map_values(f).insert(all[i as int].0@, entry_value(all[i as int].1)));
        }
    }
    assert(all.take(n as int) =~= all);
    Json::Object(o)
}

/// A tree as a `serde_json::Value`.
pub fn tree_to_value(tree: &Tree) -> (r: serde_json::Value)
    ensures
        value_model(r) == tree_value(tree@),
{
    to_value(&tree_json(tree))
}

// ---- changes ----

/// Whether `k` lies below `dir`.
pub open spec fn below(k: Text, dir: Text) -> bool {
    has_prefix(k, dir.push('/'))
}

/// A tree without a path and all that lies below it.
pub open spec fn without(t: Map<Text, TreeEntry>, key: Text) -> Map<Text, TreeEntry> {
    Map::new(|k: Text| t.contains_key(k) && k != key && !below(k, key), |k: Text| t[k])
}

/// A tree after one changed path: what the disk knows is put in, what it does not know is taken
/// out together with all that lies below it.
pub open spec fn applied_one(t: Map<Text, TreeEntry>, p: PathStateView) -> Map<Text, TreeEntry> {
    match key_of(p) {
        None => t,
        Some(k) => match p.meta {
            Some(m) => t.insert(k, node_of(m)),
            None => without(t, k),
        },
    }
}

/// A tree after a batch of changed paths, taken in order.
pub open spec fn applied(t: Map<Text, TreeEntry>, ps: Seq<PathStateView>) -> Map<Text, TreeEntry>
    decreases ps.len(),
{
    if ps.len() == 0 {
        t
    } else {
        applied_one(applied(t, ps.drop_last()), ps.last())
    }
}

/// The kinds of change that clients hear of.
#[derive(Debug, Clone, Copy, PartialEq, Eq, Structural)]
pub enum ChangeKind {
    Created,
    Modified,
    Deleted,
    FolderCreated,
}

/// A change that clients hear of. The entry is there for files that are on disk.
pub struct ChangeEvent {
    pub kind: ChangeKind,
    pub path: String,
    pub stat: Option<TreeEntry>,
}

/// What a change event says.
pub struct ChangeEventView {
    pub kind: ChangeKind,
    pub path: Text,
    pub stat: Option<TreeEntry>,
}

impl ChangeEvent {
    /// What the event says.
    pub open spec fn view(self) -> ChangeEventView {
        ChangeEventView { kind: self.kind, path: self.path@, stat: self.stat }
    }
}

/// The events of a list.
pub open spec fn events(v: Seq<ChangeEvent>) -> Seq<ChangeEventView> {
    v.map_values(|e: ChangeEvent| e@)
}

/// The event that a changed path makes: a file is created where no file was and modified where
/// one was, a folder is created where no folder was, and what was there and is gone is deleted.
/// Nothing is said of a folder that was there and still is, nor of what neither was nor is.
pub open spec fn event_at(t: Map<Text, TreeEntry>, path: Text, meta: Option<Meta>) -> Option<
    ChangeEventView,
> {
    let was = if t.contains_key(path) {
        Some(t[path].node_type)
    } else {
        None
    };
    match meta {
        Some(m) => if m.is_dir {
            if was == Some(NodeType::Directory) {
                None
            } else {
                Some(ChangeEventView { kind: ChangeKind::FolderCreated, path, stat: None })
            }
        } else {
            let kind = if was == Some(NodeType::File) {
                ChangeKind::Modified
            } else {
                ChangeKind::Created
            };
            Some(ChangeEventView { kind, path, stat: Some(node_of(m)) })
        },
        None => if was is Some {
            Some(ChangeEventView { kind: ChangeKind::Deleted, path, stat: None })
        } else {
            None
        },
    }
}

/// The event of a path state.
pub open spec fn event_of(t: Map<Text, TreeEntry>, p: PathStateView) -> Option<ChangeEventView> {
    match key_of(p) {
        Some(path) => event_at(t, path, p.meta),
        None => None,
    }
}

/// The events of a batch of changed paths, in order.
pub open spec fn batch_events(t: Map<Text, TreeEntry>, ps: Seq<PathStateView>) -> Seq<
    ChangeEventView,
>
    decreases ps.len(),
{
    if ps.len() == 0 {
        Seq::empty()
    } else {
        let front = batch_events(t, ps.drop_last());
        match event_of(applied(t, ps.drop_last()), ps.last()) {
            Some(e) => front.push(e),
            None => front,
        }
    }
}

/// Takes out a path and all that lies below it.
fn remove_subtree(tree: &mut Tree, key: &str)
    ensures
        final(tree)@ == without(old(tree)@, key@),
{
    let keys = tree.keys();
    let ghost start = tree@;
    let mut dir = key.to_owned();
    dir.push('/');
    tree.remove(key);
    let ghost gone = start.remove(key@);
    for i in 0..keys.len()
        invariant
            texts(keys@).to_set() == start.dom(),
            dir@ == key@.push('/'),
            gone == start.remove(key@),
            forall|k: Text| #[trigger]
                tree@.contains_key(k) <==> gone.contains_key(k) && !(exists|j: int|
                    0 <= j < i && #[trigger] texts(keys@)[j] == k && below(k, key@)),
            forall|k: Text| #[trigger] tree@.contains_key(k) ==> tree@[k] == start[k],
    {
        let ghost name = texts(keys@)[i as int];
        assert(name == keys@[i as int]@);
        let ghost before = tree@;
        if starts_with(keys[i].as_str(), dir.as_str()) {
            tree.remove(keys[i].as_str());
            assert(below(name, key@));
        }
        proof {
            assert forall|k: Text| #[trigger]
                tree@.contains_key(k) <==> gone.contains_key(k) && !(exists|j: int|
                    0 <= j < i + 1 && #[trigger] texts(keys@)[j] == k && below(k, key@)) by {
                if k == name && below(k, key@) {
                    assert(texts(keys@)[i as int] == k);
                }
                if tree@.contains_key(k) {
                    assert(before.contains_key(k));
                    assert forall|j: int| 0 <= j < i + 1 implies !(#[trigger] texts(keys@)[j] == k
                        && below(k, key@)) by {
                        if j == i && below(k, key@) {
                            assert(k != name);
                        }
                    }
                }
                if gone.contains_key(k) && !(exists|j: int|
                    0 <= j < i + 1 && #[trigger] texts(keys@)[j] == k && below(k, key@)) {
                    assert forall|j: int| 0 <= j < i implies !(#[trigger] texts(keys@)[j] == k
                        && below(k, key@)) by {}
                    assert(before.contains_key(k));
                }
            }
        }
    }
    proof {
        let goal = without(start, key@);
        assert forall|k: Text| tree@.contains_key(k) == goal.contains_key(k) by {
            if start.contains_key(k) {
                assert(texts(keys@).to_set().contains(k));
                let j = choose|j: int| 0 <= j < texts(keys@).len() && texts(keys@)[j] == k;
                assert(texts(keys@)[j] == k);
            }
        }
        assert(tree@ =~= goal);
    }
}

/// The event that a changed path makes, given the tree before the change.
fn event_for(tree: &Tree, key: &str, meta: &Option<Meta>) -> (r: Option<ChangeEvent>)
    ensures
        match r {
            Some(e) => event_at(tree@, key@, *meta) == Some(e@),
            None => event_at(tree@, key@, *meta) is None,
        },
{
    let was = match tree.get(key) {
        Some(e) => Some(e.node_type),
        None => None,
    };
    match meta {
        Some(m) => if m.is_dir {
            if was == Some(NodeType::Directory) {
                None
            } else {
                Some(
                    ChangeEvent { kind: ChangeKind::FolderCreated, path: key.to_owned(), stat: None },
                )
            }
        } else {
            let kind = if was == Some(NodeType::File) {
                ChangeKind::Modified
            } else {
                ChangeKind::Created
            };
            Some(ChangeEvent { kind, path: key.to_owned(), stat: Some(entry_of(m)) })
        },
        None => if was.is_some() {
            Some(ChangeEvent { kind: ChangeKind::Deleted, path: key.to_owned(), stat: None })
        } else {
            None
        },
    }
}

/// Applies a batch of changed paths to a tree and returns the events that they make.
pub fn apply_paths(tree: &mut Tree, paths: &Vec<PathState>) -> (r: Vec<ChangeEvent>)
    ensures
        final(tree)@ == applied(old(tree)@, states(paths@)),
        events(r@) == batch_events(old(tree)@, states(paths@)),
{
    let ghost start = tree@;
    let ghost all = states(paths@);
    let mut out: Vec<ChangeEvent> = Vec::new();
    assert(all.take(0) =~= Seq::<PathStateView>::empty());
    assert(events(out@) =~= batch_events(start, all.take(0)));
    for i in 0..paths.len()
        invariant
            all == states(paths@),
            tree@ == applied(start, all.take(i as int)),
            events(out@) == batch_events(start, all.take(i as int)),
    {
        assert(all.take(i as int + 1).drop_last() =~= all.take(i as int));
        assert(all[i as int] == paths@[i as int]@);
        let ghost before = events(out@);
        if let Some(key) = read_key(&paths[i]) {
            if let Some(e) = event_for(tree, key.as_str(), &paths[i].meta) {
                let ghost ev = e@;
                out.push(e);
                assert(events(out@) =~= before.push(ev));
            }
            match &paths[i].meta {
                Some(m) => {
                    tree.insert(key, entry_of(m));
                },
                None => {
                    remove_subtree(tree, key.as_str());
                },
            }
        }
    }
    assert(all.take(all.len() as int) =~= all);
    out
}

/// The name of a kind of change on the wire.
pub open spec fn kind_name(k: ChangeKind) -> Text {
    match k {
        ChangeKind::Created => "created"@,
        ChangeKind::Modified => "modified"@,
        ChangeKind::Deleted => "deleted"@,
        ChangeKind::FolderCreated => "folder-created"@,
    }
}

/// A change on the wire: `{type, path, stat?}`.
pub open spec fn event_value(e: ChangeEventView) -> JsonView {
    let o = Map::<Text, JsonView>::empty().insert("type"@, JsonView::Str(kind_name(e.kind))).insert(
        "path"@,
        JsonView::Str(e.path),
    );
    JsonView::Object(
        match e.stat {
            Some(n) => o.insert("stat"@, JsonView::Object(with_stat(Map::empty(), n))),
            None => o,
        },
    )
}

/// A change on the wire.
pub fn event_json(e: &ChangeEvent) -> (r: Json)
    ensures
        r@ == event_value(e@),
{
    let name = match e.kind {
        ChangeKind::Created => "created",
        ChangeKind::Modified => "modified",
        ChangeKind::Deleted => "deleted",
        ChangeKind::FolderCreated => "folder-created",
    };
    let mut o: Vec<(String, Json)> = Vec::new();
    put(&mut o, "type", jstr(name));
    put(&mut o, "path", jstr(e.path.as_str()));
    if let Some(n) = &e.stat {
        let mut stat: Vec<(String, Json)> = Vec::new();
        put_stat(&mut stat, n);
        put(&mut o, "stat", Json::Object(stat));
    }
    Json::Object(o)
}

/// The text that every client of a vault is sent for a change.
pub fn event_text(e: &ChangeEvent) -> (r: String)
    ensures
        r@ == json_text(event_value(e@)),
{
    to_text(&event_json(e))
}

// ---- the index ----

/// The tree of one vault, kept in memory.
#[derive(Debug)]
pub struct VaultIndex {
    root: String,
    tree: Tree,
}

impl Clone for VaultIndex {
    /// The same root and the same entries.
    fn clone(&self) -> (r: Self)
        ensures
            r.path() == self.path(),
            r.entries() == self.entries(),
    {
        let r = VaultIndex { root: self.root.clone(), tree: self.tree.clone() };
        assert(r.tree@ =~= self.tree@);
        r
    }
}

impl VaultIndex {
    /// The entries of the current snapshot.
    pub closed spec fn entries(self) -> Map<Text, TreeEntry> {
        self.tree@
    }

    /// The vault root.
    pub closed spec fn path(self) -> Text {
        self.root@
    }

    /// An index of what a walk of `root` met.
    pub fn build(root: &str, found: &Vec<PathState>) -> (r: Self)
        ensures
            r.path() == root@,
            r.entries() == walked(states(found@)),
    {
        VaultIndex { root: root.to_owned(), tree: build_tree(found) }
    }

    /// An index that a watcher keeps up to date: it starts from what a walk of `root` met while
    /// the watcher already ran.
    pub fn build_live(root: &str, found: &Vec<PathState>) -> (r: Self)
        ensures
            r.path() == root@,
            r.entries() == walked(states(found@)),
    {
        let mut index = VaultIndex { root: root.to_owned(), tree: StrMap::new() };
        index.reconcile(found);
        index
    }

    /// Replaces the snapshot by what a new walk met.
    pub fn reconcile(&mut self, found: &Vec<PathState>)
        ensures
            final(self).entries() == walked(states(found@)),
            final(self).path() == old(self).path(),
    {
        self.tree = build_tree(found);
    }

    /// Applies a batch of changed paths and returns the events that they make.
    pub fn apply(&mut self, paths: &Vec<PathState>) -> (r: Vec<ChangeEvent>)
        ensures
            final(self).entries() == applied(old(self).entries(), states(paths@)),
            final(self).path() == old(self).path(),
            events(r@) == batch_events(old(self).entries(), states(paths@)),
    {
        apply_paths(&mut self.tree, paths)
    }

    /// The current snapshot.
    pub fn tree(&self) -> (r: &Tree)
        ensures
            r@ == self.entries(),
    {
        &self.tree
    }

    /// The vault root.
    pub fn root(&self) -> (r: &str)
        ensures
            r@ == self.path(),
    {
        self.root.as_str()
    }
}

// ---- laws ----

/// The tree of a disk.
pub open spec fn tree_of(disk: Map<Text, Meta>) -> Map<Text, TreeEntry> {
    disk.map_values(|m: Meta| node_of(m))
}

/// Whether a batch of path states reaches the path `k`: it names `k`, or something above `k`
/// that is gone.
pub open spec fn touched(k: Text, ps: Seq<PathStateView>) -> bool {
    exists|i: int| 0 <= i < ps.len() && touches(#[trigger] ps[i], k)
}

/// Whether a path state reaches the path `k`.
pub open spec fn touches(p: PathStateView, k: Text) -> bool {
    match key_of(p) {
        Some(q) => k == q || (p.meta is None && below(k, q)),
        None => false,
    }
}

/// Whether path states tell what the disk says now.
pub open spec fn truthful(ps: Seq<PathStateView>, now: Map<Text, Meta>) -> bool {
    forall|i: int|
        0 <= i < ps.len() ==> (key_of(#[trigger] ps[i]) matches Some(k) ==> ps[i].meta == (
        if now.contains_key(k) {
            Some(now[k])
        } else {
            None
        }))
}

/// A tree that was right stays right: where the path states tell what the disk says now, and
/// reach every path whose state has changed, the tree after them is the tree of the disk.
pub proof fn law_changes_follow_the_disk(
    before: Map<Text, Meta>,
    now: Map<Text, Meta>,
    ps: Seq<PathStateView>,
)
    requires
        truthful(ps, now),
        forall|k: Text|
            !touched(k, ps) ==> (#[trigger] now.contains_key(k) <==> before.contains_key(k)),
        forall|k: Text| !touched(k, ps) && #[trigger] now.contains_key(k) ==> now[k] == before[k],
        forall|k: Text, dir: Text|
            #![trigger now.contains_key(k), below(k, dir)]
            now.contains_key(k) && below(k, dir) ==> now.contains_key(dir),
    ensures
        applied(tree_of(before), ps) == tree_of(now),
{
    lemma_applied(before, now, ps);
    let t = applied(tree_of(before), ps);
    assert forall|k: Text| t.contains_key(k) == tree_of(now).contains_key(k) by {
        assert(now.contains_key(k) == tree_of(now).contains_key(k));
    }
    assert forall|k: Text| t.contains_key(k) implies t[k] == tree_of(now)[k] by {
        assert(now.contains_key(k));
    }
    assert(t =~= tree_of(now));
}

proof fn lemma_applied(before: Map<Text, Meta>, now: Map<Text, Meta>, ps: Seq<PathStateView>)
    requires
        truthful(ps, now),
        forall|k: Text, dir: Text|
            #![trigger now.contains_key(k), below(k, dir)]
            now.contains_key(k) && below(k, dir) ==> now.contains_key(dir),
    ensures
        forall|k: Text|
            #![trigger applied(tree_of(before), ps).contains_key(k)]
            {
                let t = applied(tree_of(before), ps);
                let disk = if touched(k, ps) {
                    now
                } else {
                    before
                };
                &&& t.contains_key(k) <==> disk.contains_key(k)
                &&& t.contains_key(k) ==> t[k] == node_of(disk[k])
            },
    decreases ps.len(),
{
    if ps.len() > 0 {
        let front = ps.drop_last();
        let p = ps.last();
        assert forall|i: int| 0 <= i < front.len() implies (key_of(#[trigger] front[i]) matches Some(
            k,
        ) ==> front[i].meta == (if now.contains_key(k) {
            Some(now[k])
        } else {
            None
        })) by {
            assert(front[i] == ps[i]);
        }
        lemma_applied(before, now, front);
        let u = applied(tree_of(before), front);
        let t = applied(tree_of(before), ps);
        assert(ps[ps.len() - 1] == p);
        assert forall|k: Text| #![trigger t.contains_key(k)]
            {
                let disk = if touched(k, ps) {
                    now
                } else {
                    before
                };
                &&& t.contains_key(k) <==> disk.contains_key(k)
                &&& t.contains_key(k) ==> t[k] == node_of(disk[k])
            } by {
            lemma_touched_push(k, front, p);
            assert(front.push(p) =~= ps);
            assert(u.contains_key(k) == u.contains_key(k));
            if touches(p, k) {
                let q = key_of(p)->0;
                if k != q {
                    assert(below(k, q));
                    assert(!now.contains_key(q));
                    assert(!now.contains_key(k));
                }
            }
        }
    }
}

proof fn lemma_touched_push(k: Text, ps: Seq<PathStateView>, p: PathStateView)
    ensures
        touched(k, ps.push(p)) <==> touched(k, ps) || touches(p, k),
{
    let more = ps.push(p);
    if touched(k, ps) {
        let i = choose|i: int| 0 <= i < ps.len() && touches(#[trigger] ps[i], k);
        assert(more[i] == ps[i]);
    }
    if touches(p, k) {
        assert(more[ps.len() as int] == p);
    }
    if touched(k, more) {
        let i = choose|i: int| 0 <= i < more.len() && touches(#[trigger] more[i], k);
        if i < ps.len() {
            assert(ps[i] == more[i]);
        }
    }
}

/// Only the paths that a batch reaches change.
pub proof fn law_other_paths_stay(t: Map<Text, TreeEntry>, ps: Seq<PathStateView>, k: Text)
    requires
        !touched(k, ps),
    ensures
        applied(t, ps).contains_key(k) <==> t.contains_key(k),
        t.contains_key(k) ==> applied(t, ps)[k] == t[k],
    decreases ps.len(),
{
    if ps.len() > 0 {
        assert(ps.drop_last().push(ps.last()) =~= ps);
        lemma_touched_push(k, ps.drop_last(), ps.last());
        law_other_paths_stay(t, ps.drop_last(), k);
    }
}

/// Whether a walk met the path `k`.
pub open spec fn met(k: Text, found: Seq<PathStateView>) -> bool {
    exists|i: int|
        0 <= i < found.len() && key_of(#[trigger] found[i]) == Some(k) && found[i].meta is Some
}

/// The tree of a walk is the tree of the disk, in whatever order the walk met its paths: where
/// it met every path of the disk and no other, and tells what the disk says of each. So a new
/// walk sets right whatever was missed before it.
pub proof fn law_walk_is_the_disk(disk: Map<Text, Meta>, found: Seq<PathStateView>)
    requires
        forall|i: int|
            0 <= i < found.len() ==> (key_of(#[trigger] found[i]) matches Some(k) ==> (
            found[i].meta matches Some(m) ==> disk.contains_key(k) && disk[k] == m)),
        forall|k: Text| #[trigger] disk.contains_key(k) ==> met(k, found),
    ensures
        walked(found) == tree_of(disk),
{
    lemma_walked(disk, found);
    let t = walked(found);
    assert forall|k: Text| t.contains_key(k) == tree_of(disk).contains_key(k) by {
        assert(tree_of(disk).contains_key(k) == disk.contains_key(k));
    }
    assert(t =~= tree_of(disk));
}

proof fn lemma_walked(disk: Map<Text, Meta>, found: Seq<PathStateView>)
    requires
        forall|i: int|
            0 <= i < found.len() ==> (key_of(#[trigger] found[i]) matches Some(k) ==> (
            found[i].meta matches Some(m) ==> disk.contains_key(k) && disk[k] == m)),
    ensures
        forall|k: Text| #[trigger]
            walked(found).contains_key(k) ==> disk.contains_key(k) && walked(found)[k] == node_of(
                disk[k],
            ),
        forall|k: Text| #[trigger] walked(found).contains_key(k) <==> met(k, found),
    decreases found.len(),
{
    if found.len() > 0 {
        let front = found.drop_last();
        let last = found.last();
        assert(found[found.len() - 1] == last);
        assert forall|i: int| 0 <= i < front.len() implies (key_of(#[trigger] front[i]) matches Some(
            k,
        ) ==> (front[i].meta matches Some(m) ==> disk.contains_key(k) && disk[k] == m)) by {
            assert(front[i] == found[i]);
        }
        lemma_walked(disk, front);
        assert forall|k: Text| #[trigger] walked(found).contains_key(k) <==> met(k, found) by {
            if met(k, front) {
                let i = choose|i: int|
                    0 <= i < front.len() && key_of(#[trigger] front[i]) == Some(k)
                        && front[i].meta is Some;
                assert(found[i] == front[i]);
            }
            if met(k, found) {
                let i = choose|i: int|
                    0 <= i < found.len() && key_of(#[trigger] found[i]) == Some(k)
                        && found[i].meta is Some;
                if i < front.len() {
                    assert(front[i] == found[i]);
                }
            }
            assert(walked(front).contains_key(k) == walked(front).contains_key(k));
        }
    } else {
        assert forall|k: Text| #[trigger] walked(found).contains_key(k) <==> met(k, found) by {}
    }
}

/// No key of a walked tree holds a backslash.
pub proof fn law_keys_are_posix(found: Seq<PathStateView>, k: Text)
    ensures
        walked(found).contains_key(k) ==> !k.contains('\\'),
    decreases found.len(),
{
    if found.len() > 0 {
        law_keys_are_posix(found.drop_last(), k);
        if let Some(r) = found.last().rel {
            lemma_posix(r);
        }
    }
}

proof fn lemma_posix(t: Text)
    ensures
        !posix(t).contains('\\'),
    decreases t.len(),
{
    let pat = seq!['\\'];
    let rep = seq!['/'];
    if t.len() > 0 {
        if t.take(1) == pat {
            lemma_posix(t.skip(1));
            let rest = posix(t.skip(1));
            assert(posix(t) =~= rep + rest);
            if posix(t).contains('\\') {
                let i = choose|i: int| 0 <= i < posix(t).len() && posix(t)[i] == '\\';
                assert(rest[i - 1] == '\\');
            }
        } else {
            lemma_posix(t.drop_first());
            let rest = posix(t.drop_first());
            assert(posix(t) =~= seq![t[0]] + rest);
            assert(t[0] != '\\') by {
                if t[0] == '\\' {
                    assert(t.take(1) =~= pat);
                }
            }
            if posix(t).contains('\\') {
                let i = choose|i: int| 0 <= i < posix(t).len() && posix(t)[i] == '\\';
                assert(rest[i - 1] == '\\');
            }
        }
    }
}

/// Files that are on disk come with their size and times; what is deleted, and a new folder,
/// come without.
pub proof fn law_event_stat(t: Map<Text, TreeEntry>, path: Text, meta: Option<Meta>)
    ensures
        event_at(t, path, meta) matches Some(e) ==> e.path == path && (e.stat is Some <==> e.kind
            == ChangeKind::Created || e.kind == ChangeKind::Modified),
{
}

/// A deleted path leaves nothing at it or below it.
pub proof fn law_deletion_takes_the_subtree(t: Map<Text, TreeEntry>, p: PathStateView, k: Text)
    requires
        p.meta is None,
        key_of(p) is Some,
        k == key_of(p)->0 || below(k, key_of(p)->0),
    ensures
        !applied_one(t, p).contains_key(k),
{
}

/// A path with a slash for every backslash, character by character.
spec fn slashed(r: Text) -> Text {
    Seq::new(
        r.len(),
        |i: int|
            if r[i] == '\\' {
                '/'
            } else {
                r[i]
            },
    )
}

proof fn lemma_posix_slashed(t: Text)
    ensures
        posix(t) == slashed(t),
    decreases t.len(),
{
    let pat = seq!['\\'];
    let rep = seq!['/'];
    if t.len() > 0 {
        assert(t.take(1) =~= seq![t[0]]);
        if t[0] == '\\' {
            lemma_posix_slashed(t.skip(1));
            assert(t.take(1) =~= pat);
            assert(posix(t) =~= rep + posix(t.skip(1)));
            assert(posix(t) =~= slashed(t));
        } else {
            lemma_posix_slashed(t.drop_first());
            assert(t.take(1) != pat) by {
                assert(t.take(1)[0] == t[0]);
                assert(pat[0] == '\\');
            }
            assert(posix(t) =~= seq![t[0]] + posix(t.drop_first()));
            assert(posix(t) =~= slashed(t));
        }
    } else {
        assert(posix(t) =~= slashed(t));
    }
}

/// One more path of a walk puts what the disk says of it under its own path, with slashes, and
/// leaves every other path as it was. The root itself, what lies outside of it, and what the disk
/// does not know are passed over.
pub proof fn law_a_walk_path_by_path(
    found: Seq<PathStateView>,
    p: PathStateView,
    k: Text,
    q: Text,
)
    requires
        p.rel matches Some(r) ==> k.len() == r.len() && forall|i: int|
            0 <= i < r.len() ==> #[trigger] k[i] == (if r[i] == '\\' {
                '/'
            } else {
                r[i]
            }),
    ensures
        ({
            let was = walked(found);
            let now = walked(found.push(p));
            match (p.rel, p.meta) {
                (Some(r), Some(m)) => if r.len() > 0 {
                    let e = now[k];
                    &&& now.contains_key(k)
                    &&& if m.is_dir {
                        e.node_type == NodeType::Directory && e.size is None && e.mtime is None && e.ctime is None
                    } else {
                        &&& e.node_type == NodeType::File
                        &&& e.size == Some(m.len)
                        &&& e.mtime == m.modified
                        &&& m.created is Some ==> e.ctime == m.created
                        &&& m.created is None ==> e.ctime == m.modified
                    }
                    &&& q != k ==> (now.contains_key(q) <==> was.contains_key(q))
                    &&& q != k && was.contains_key(q) ==> now[q] == was[q]
                } else {
                    now == was
                },
                _ => now == was,
            }
        }),
        walked(Seq::empty()) == Map::<Text, TreeEntry>::empty(),
{
    assert(found.push(p).drop_last() =~= found);
    if let Some(r) = p.rel {
        lemma_posix_slashed(r);
        assert(k =~= slashed(r));
    }
}

/// Every file of the disk is in the tree of a walk with its size and its times, every directory
/// as a directory, and nothing else is there.
pub proof fn law_a_walk_tells_what_the_disk_says(
    disk: Map<Text, Meta>,
    found: Seq<PathStateView>,
    k: Text,
)
    requires
        forall|i: int|
            0 <= i < found.len() ==> (key_of(#[trigger] found[i]) matches Some(k) ==> (
            found[i].meta matches Some(m) ==> disk.contains_key(k) && disk[k] == m)),
        forall|k: Text| #[trigger] disk.contains_key(k) ==> met(k, found),
    ensures
        walked(found).contains_key(k) <==> disk.contains_key(k),
        disk.contains_key(k) ==> ({
            let e = walked(found)[k];
            let m = disk[k];
            if m.is_dir {
                e.node_type == NodeType::Directory && e.size is None && e.mtime is None && e.ctime is None
            } else {
                &&& e.node_type == NodeType::File
                &&& e.size == Some(m.len)
                &&& e.mtime == m.modified
                &&& m.created is Some ==> e.ctime == m.created
                &&& m.created is None ==> e.ctime == m.modified
            }
        }),
{
    law_walk_is_the_disk(disk, found);
}

/// One more changed path of a batch: what the disk knows is put under its own path with its size
/// and times; what it does not know is taken out, with whatever has its path and a slash in
/// front. Every other path stays.
pub proof fn law_a_batch_path_by_path(
    t: Map<Text, TreeEntry>,
    ps: Seq<PathStateView>,
    p: PathStateView,
    k: Text,
    q: Text,
)
    requires
        p.rel matches Some(r) ==> k.len() == r.len() && forall|i: int|
            0 <= i < r.len() ==> #[trigger] k[i] == (if r[i] == '\\' {
                '/'
            } else {
                r[i]
            }),
    ensures
        ({
            let was = applied(t, ps);
            let now = applied(t, ps.push(p));
            match p.rel {
                Some(r) => if r.len() == 0 {
                    now == was
                } else {
                    match p.meta {
                        Some(m) => {
                            let e = now[k];
                            &&& now.contains_key(k)
                            &&& if m.is_dir {
                                e.node_type == NodeType::Directory && e.size is None && e.mtime is None && e.ctime is None
                            } else {
                                &&& e.node_type == NodeType::File
                                &&& e.size == Some(m.len)
                                &&& e.mtime == m.modified
                                &&& m.created is Some ==> e.ctime == m.created
                                &&& m.created is None ==> e.ctime == m.modified
                            }
                            &&& q != k ==> (now.contains_key(q) <==> was.contains_key(q))
                            &&& q != k && was.contains_key(q) ==> now[q] == was[q]
                        },
                        None => {
                            let gone = q == k || (q.len() > k.len() && q.take(k.len() as int) == k
                                && q[k.len() as int] == '/');
                            &&& now.contains_key(q) <==> was.contains_key(q) && !gone
                            &&& now.contains_key(q) ==> now[q] == was[q]
                        },
                    }
                },
                None => now == was,
            }
        }),
        applied(t, Seq::empty()) == t,
{
    assert(ps.push(p).drop_last() =~= ps);
    if let Some(r) = p.rel {
        lemma_posix_slashed(r);
        assert(k =~= slashed(r));
        let dir = k.push('/');
        if q.len() > k.len() {
            assert(q.take(dir.len() as int).drop_last() =~= q.take(k.len() as int));
            assert(dir.drop_last() =~= k);
            if q.take(k.len() as int) == k && q[k.len() as int] == '/' {
                assert(q.take(dir.len() as int) =~= dir);
            }
            if q.take(dir.len() as int) == dir {
                assert(dir[k.len() as int] == '/');
                assert(q.take(dir.len() as int)[k.len() as int] == q[k.len() as int]);
            }
        }
    }
}

/// The events of one more changed path come behind those of the batch, at most one, and name that
/// path: a file that was no file before is created, one that was is modified, and both tell what
/// the disk says; a folder that was none is created; what was there and is gone is deleted. Of
/// anything else nothing is told.
pub proof fn law_events_path_by_path(
    t: Map<Text, TreeEntry>,
    ps: Seq<PathStateView>,
    p: PathStateView,
    k: Text,
)
    requires
        p.rel matches Some(r) ==> k.len() == r.len() && forall|i: int|
            0 <= i < r.len() ==> #[trigger] k[i] == (if r[i] == '\\' {
                '/'
            } else {
                r[i]
            }),
    ensures
        ({
            let was = applied(t, ps);
            let before = batch_events(t, ps);
            let after = batch_events(t, ps.push(p));
            match p.rel {
                Some(r) => {
                    let known = was.contains_key(k);
                    let told = after.len() == before.len() + 1 && after.drop_last() == before
                        && after.last().path == k;
                    if r.len() == 0 {
                        after == before
                    } else {
                        match p.meta {
                            Some(m) => if m.is_dir {
                                if known && was[k].node_type == NodeType::Directory {
                                    after == before
                                } else {
                                    told && after.last().kind == ChangeKind::FolderCreated
                                        && after.last().stat is None
                                }
                            } else {
                                &&& told
                                &&& after.last().stat matches Some(e) && e.node_type
                                    == NodeType::File && e.size == Some(m.len) && e.mtime
                                    == m.modified && (m.created is Some ==> e.ctime == m.created)
                                    && (m.created is None ==> e.ctime == m.modified)
                                &&& after.last().kind == ChangeKind::Modified <==> known
                                    && was[k].node_type == NodeType::File
                                &&& after.last().kind == ChangeKind::Created <==> !(known
                                    && was[k].node_type == NodeType::File)
                            },
                            None => if known {
                                told && after.last().kind == ChangeKind::Deleted
                                    && after.last().stat is None
                            } else {
                                after == before
                            },
                        }
                    }
                },
                None => after == before,
            }
        }),
        batch_events(t, Seq::empty()) == Seq::<ChangeEventView>::empty(),
{
    assert(ps.push(p).drop_last() =~= ps);
    if let Some(r) = p.rel {
        lemma_posix_slashed(r);
        assert(k =~= slashed(r));
    }
    let before = batch_events(t, ps);
    if let Some(e) = event_of(applied(t, ps), p) {
        assert(before.push(e).drop_last() =~= before);
    }
}

/// On the wire a tree has one member for each of its paths. A directory is told by its type
/// alone; a file by its type and by each of size, time of modification and time of creation that
/// is known, under its own name.
pub proof fn law_a_tree_on_the_wire(t: Map<Text, TreeEntry>, k: Text)
    ensures
        tree_value(t) is Object,
        tree_value(t)->Object_0.contains_key(k) <==> t.contains_key(k),
        t.contains_key(k) ==> tree_value(t)->Object_0[k] is Object && ({
            let o = tree_value(t)->Object_0[k]->Object_0;
            let e = t[k];
            let file = e.node_type == NodeType::File;
            &&& o.contains_key("type"@)
            &&& o["type"@] == JsonView::Str(
                if file {
                    "file"@
                } else {
                    "directory"@
                },
            )
            &&& o.contains_key("size"@) <==> file && e.size is Some
            &&& o.contains_key("mtime"@) <==> file && e.mtime is Some
            &&& o.contains_key("ctime"@) <==> file && e.ctime is Some
            &&& file && e.size is Some ==> o["size"@] == JsonView::Int(e.size->0 as int)
            &&& file && e.mtime is Some ==> o["mtime"@] == millis_json(e.mtime->0 as nat)
            &&& file && e.ctime is Some ==> o["ctime"@] == millis_json(e.ctime->0 as nat)
            &&& forall|n: Text| #[trigger]
                o.contains_key(n) ==> n == "type"@ || n == "size"@ || n == "mtime"@ || n == "ctime"@
        }),
{
    reveal_strlit("type");
    reveal_strlit("size");
    reveal_strlit("mtime");
    reveal_strlit("ctime");
    assert("type"@.len() == 4);
    assert("size"@.len() == 4);
    assert("mtime"@.len() == 5);
    assert("ctime"@.len() == 5);
    assert("type"@[0] != "size"@[0]);
    assert("mtime"@[0] != "ctime"@[0]);
}

/// A change on the wire names its kind and its path, and carries the size and the times of a file
/// where the change has them, and nothing else.
pub proof fn law_an_event_on_the_wire(e: ChangeEventView)
    ensures
        event_value(e) is Object,
        ({
            let o = event_value(e)->Object_0;
            &&& o.contains_key("type"@) && o.contains_key("path"@)
            &&& e.kind == ChangeKind::Created ==> o["type"@] == JsonView::Str("created"@)
            &&& e.kind == ChangeKind::Modified ==> o["type"@] == JsonView::Str("modified"@)
            &&& e.kind == ChangeKind::Deleted ==> o["type"@] == JsonView::Str("deleted"@)
            &&& e.kind == ChangeKind::FolderCreated ==> o["type"@] == JsonView::Str(
                "folder-created"@,
            )
            &&& o["path"@] == JsonView::Str(e.path)
            &&& o.contains_key("stat"@) <==> e.stat is Some
            &&& forall|n: Text| #[trigger]
                o.contains_key(n) ==> n == "type"@ || n == "path"@ || n == "stat"@
        }),
        e.stat matches Some(n) ==> event_value(e)->Object_0["stat"@] is Object && ({
            let s = event_value(e)->Object_0["stat"@]->Object_0;
            &&& s.contains_key("size"@) <==> n.size is Some
            &&& s.contains_key("mtime"@) <==> n.mtime is Some
            &&& s.contains_key("ctime"@) <==> n.ctime is Some
            &&& n.size is Some ==> s["size"@] == JsonView::Int(n.size->0 as int)
            &&& n.mtime is Some ==> s["mtime"@] == millis_json(n.mtime->0 as nat)
            &&& n.ctime is Some ==> s["ctime"@] == millis_json(n.ctime->0 as nat)
        }),
{
    reveal_strlit("type");
    reveal_strlit("size");
    reveal_strlit("mtime");
    reveal_strlit("ctime");
    reveal_strlit("path");
    reveal_strlit("stat");
    assert("type"@.len() == 4);
    assert("size"@.len() == 4);
    assert("mtime"@.len() == 5);
    assert("ctime"@.len() == 5);
    assert("path"@.len() == 4);
    assert("stat"@.len() == 4);
    assert("type"@[0] != "size"@[0]);
    assert("type"@[0] != "path"@[0]);
    assert("type"@[0] != "stat"@[0]);
    assert("size"@[0] != "path"@[0]);
    assert("size"@[1] != "stat"@[1]);
    assert("mtime"@[0] != "ctime"@[0]);
    assert("path"@[0] != "stat"@[0]);
}

/// Path states and change events say what they hold, one for each in order.
pub proof fn law_what_states_and_events_say(v: Seq<PathState>, e: Seq<ChangeEvent>, i: int)
    ensures
        states(v).len() == v.len(),
        0 <= i < v.len() ==> states(v)[i].meta == v[i].meta && (v[i].rel matches Some(r) ==> states(
            v,
        )[i].rel == Some(r@)) && (v[i].rel is None ==> states(v)[i].rel is None),
        events(e).len() == e.len(),
        0 <= i < e.len() ==> events(e)[i].kind == e[i].kind && events(e)[i].path == e[i].path@ && events(
            e,
        )[i].stat == e[i].stat,
{
}

} // verus!
