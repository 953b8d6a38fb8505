//! The known vaults: one index each, by name.

use vstd::prelude::*;

use crate::index::{applied, batch_events, events, states, walked, ChangeEvent, PathState, VaultIndex};
use crate::strmap::{sorted_keys, sorted_texts, StrMap};
use crate::text::{texts, Text};

verus! {

/// An entry of a directory.
pub struct DirItem {
    pub name: String,
    pub is_dir: bool,
}

/// An entry of the vault root, with what a walk of it met where it is a directory.
pub struct WalkedItem {
    pub name: String,
    /// Its path in text. In place of what is no Unicode text stand replacement characters, as in
    /// the name.
    pub path: String,
    pub is_dir: bool,
    pub found: Vec<PathState>,
}

/// The directories among some entries, by name. Of two with one name the later one counts.
pub open spec fn directories(items: Seq<WalkedItem>) -> Map<Text, WalkedItem>
    decreases items.len(),
{
    if items.len() == 0 {
        Map::empty()
    } else {
        let front = directories(items.drop_last());
        if items.last().is_dir {
            front.insert(items.last().name@, items.last())
        } else {
            front
        }
    }
}

/// An index is that of a directory: it has its path and what the walk of it met.
pub open spec fn indexes(index: VaultIndex, dir: WalkedItem) -> bool {
    index.path() == dir.path@ && index.entries() == walked(states(dir.found@))
}

/// The indexes of the known vaults. Each vault is a directory below the vault root.
#[derive(Debug)]
pub struct VaultRegistry {
    vaults: StrMap<VaultIndex>,
    vault_root: String,
}

impl VaultRegistry {
    /// The indexes, by vault name.
    pub closed spec fn vaults(self) -> Map<Text, VaultIndex> {
        self.vaults@
    }

    /// The directory that holds the vaults.
    pub closed spec fn dir(self) -> Text {
        self.vault_root@
    }

    /// A registry with a vault for every directory directly below `vault_root`. Each index holds
    /// what the walk of its directory met.
    pub fn discover(vault_root: &str, items: &Vec<WalkedItem>) -> (r: Self)
        ensures
            r.dir() == vault_root@,
            r.vaults().dom() == directories(items@).dom(),
            forall|n: Text| #[trigger]
                r.vaults().contains_key(n) ==> indexes(r.vaults()[n], directories(items@)[n]),
            forall|n: Text| #[trigger]
                r.vaults().contains_key(n) ==> r.vaults()[n].path() == directories(items@)[n].path@
                    && r.vaults()[n].entries() == walked(states(directories(items@)[n].found@)),
    {
        let mut vaults: StrMap<VaultIndex> = StrMap::new();
        assert(items@.take(0) =~= Seq::<WalkedItem>::empty());
        assert(vaults@.dom() =~= directories(items@.take(0)).dom());
        for i in 0..items.len()
            invariant
                vaults@.dom() == directories(items@.take(i as int)).dom(),
                forall|n: Text| #[trigger]
                    vaults@.contains_key(n) ==> indexes(
                        vaults@[n],
                        directories(items@.take(i as int))[n],
                    ),
        {
            let ghost all = directories(items@.take(i as int + 1));
            assert(items@.take(i as int + 1).drop_last() =~= items@.take(i as int));
            if items[i].is_dir {
                let index = VaultIndex::build_live(items[i].path.as_str(), &items[i].found);
                vaults.insert(items[i].name.clone(), index);
            }
            assert(vaults@.dom() =~= all.dom());
        }
        assert(items@.take(items@.len() as int) =~= items@);
        VaultRegistry { vaults, vault_root: vault_root.to_owned() }
    }

    /// The index of a vault.
    pub fn get(&self, name: &str) -> (r: Option<&VaultIndex>)
        ensures
            r is Some <==> self.vaults().contains_key(name@),
            r matches Some(v) ==> *v == self.vaults()[name@],
    {
        self.vaults.get(name)
    }

    /// Whether there is a vault of that name.
    pub fn contains(&self, name: &str) -> (r: bool)
        ensures
            r == self.vaults().contains_key(name@),
    {
        self.vaults.contains_key(name)
    }

    /// The names of all vaults, in ascending order.
    pub fn names(&self) -> (r: Vec<String>)
        ensures
            texts(r@) == sorted_keys(self.vaults().dom()),
            texts(r@).to_set() == self.vaults().dom(),
            sorted_texts(texts(r@)),
    {
        self.vaults.keys()
    }

    /// The directory that holds the vaults.
    pub fn vault_root(&self) -> (r: &str)
        ensures
            r@ == self.dir(),
    {
        self.vault_root.as_str()
    }

    /// Registers the vault at `path` under `name`, in place of what was there. Its index holds
    /// what a walk of `path` met.
    pub fn insert_vault(&mut self, name: String, path: &str, found: &Vec<PathState>)
        ensures
            final(self).dir() == old(self).dir(),
            final(self).vaults().dom() == old(self).vaults().dom().insert(name@),
            final(self).vaults()[name@].path() == path@,
            final(self).vaults()[name@].entries() == walked(states(found@)),
            forall|n: Text|
                n != name@ && #[trigger] final(self).vaults().contains_key(n) ==> final(
                    self).vaults()[n] == old(self).vaults()[n],
    {
        self.vaults.insert(name, VaultIndex::build_live(path, found));
        assert(self.vaults().dom() =~= old(self).vaults().dom().insert(name@));
    }

    /// Drops a vault. Returns whether there was one.
    pub fn remove_vault(&mut self, name: &str) -> (r: bool)
        ensures
            final(self).dir() == old(self).dir(),
            final(self).vaults() == old(self).vaults().remove(name@),
            r == old(self).vaults().contains_key(name@),
    {
        self.vaults.remove(name).is_some()
    }

    /// Replaces the snapshot of a vault by what a new walk met. Returns whether there is such a
    /// vault.
    pub fn reconcile_vault(&mut self, name: &str, found: &Vec<PathState>) -> (r: bool)
        ensures
            final(self).dir() == old(self).dir(),
            r == old(self).vaults().contains_key(name@),
            final(self).vaults().dom() == old(self).vaults().dom(),
            r ==> final(self).vaults()[name@].entries() == walked(states(found@)),
            r ==> final(self).vaults()[name@].path() == old(self).vaults()[name@].path(),
            forall|n: Text|
                n != name@ && #[trigger] final(self).vaults().contains_key(n) ==> final(
                    self).vaults()[n] == old(self).vaults()[n],
    {
        match self.vaults.remove(name) {
            Some(mut index) => {
                index.reconcile(found);
                self.vaults.insert(name.to_owned(), index);
                assert(self.vaults().dom() =~= old(self).vaults().dom());
                true
            },
            None => {
                assert(self.vaults() =~= old(self).vaults());
                false
            },
        }
    }

    /// Applies a batch of changed paths to a vault and returns the events that they make, or
    /// `None` where there is no such vault.
    pub fn apply_changes(&mut self, name: &str, paths: &Vec<PathState>) -> (r: Option<
        Vec<ChangeEvent>,
    >)
        ensures
            final(self).dir() == old(self).dir(),
            r is Some <==> old(self).vaults().contains_key(name@),
            final(self).vaults().dom() == old(self).vaults().dom(),
            r matches Some(evs) ==> {
                let was = old(self).vaults()[name@];
                let now = final(self).vaults()[name@];
                &&& now.entries() == applied(was.entries(), states(paths@))
                &&& now.path() == was.path()
                &&& events(evs@) == batch_events(was.entries(), states(paths@))
            },
            forall|n: Text|
                n != name@ && #[trigger] final(self).vaults().contains_key(n) ==> final(
                    self).vaults()[n] == old(self).vaults()[n],
    {
        match self.vaults.remove(name) {
            Some(mut index) => {
                let evs = index.apply(paths);
                self.vaults.insert(name.to_owned(), index);
                assert(self.vaults().dom() =~= old(self).vaults().dom());
                Some(evs)
            },
            None => {
                assert(self.vaults() =~= old(self).vaults());
                None
            },
        }
    }
}

impl Default for VaultRegistry {
    /// No vault, and an empty path for the directory that holds the vaults.
    fn default() -> (r: Self)
        ensures
            r.dir() == Seq::<char>::empty(),
            r.vaults() == Map::<Text, VaultIndex>::empty(),
    {
        let vault_root = String::new();
        proof {
            reveal_strlit("");
            assert(vault_root@ =~= Seq::<char>::empty());
        }
        VaultRegistry { vaults: StrMap::new(), vault_root }
    }
}

// ---- laws ----

/// A further entry of the vault root is a vault under its own name where it is a directory, in
/// place of an earlier one of that name, and leaves every other vault as it was. Where it is none
/// it changes nothing.
pub proof fn law_vaults_are_the_directories(items: Seq<WalkedItem>, item: WalkedItem, k: Text)
    ensures
        item.is_dir ==> ({
            let m = directories(items.push(item));
            &&& m.contains_key(item.name@) && m[item.name@] == item
            &&& k != item.name@ ==> (m.contains_key(k) <==> directories(items).contains_key(k))
            &&& k != item.name@ && m.contains_key(k) ==> m[k] == directories(items)[k]
        }),
        !item.is_dir ==> directories(items.push(item)) == directories(items),
        !directories(Seq::empty()).contains_key(k),
{
    assert(items.push(item).drop_last() =~= items);
}

/// The index of a directory has the path of that directory and what the walk of it met.
pub proof fn law_an_index_is_that_of_its_directory(index: VaultIndex, dir: WalkedItem)
    ensures
        indexes(index, dir) <==> index.path() == dir.path@ && index.entries() == walked(
            states(dir.found@),
        ),
{
}

} // verus!
