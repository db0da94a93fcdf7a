//! Hard links: a file reached by several paths is counted once, under its least path.
use vstd::prelude::*;

use crate::path::{components, comps_le, path_le};

verus! {

/// The identity of a file that has several hard links: its device and inode.
#[derive(Debug, Clone, Copy, PartialEq, Eq, Structural, Hash)]
pub struct FileIdentity {
    pub device: u64,
    pub inode: u64,
}

/// The identity of a file with `number_of_links` links, where it has more than one.
pub fn hardlink_identity(device: u64, inode: u64, number_of_links: u64) -> (res: Option<FileIdentity>)
    ensures
        number_of_links > 1 ==> res == Some(FileIdentity { device, inode }),
        number_of_links <= 1 ==> res is None,
{
    if number_of_links > 1 {
        Some(FileIdentity { device, inode })
    } else {
        None
    }
}

/// The entry that currently carries the size of a hard-linked file.
#[derive(Debug, Clone, PartialEq, Eq)]
pub struct HardlinkOwner {
    pub path: String,
    pub entry_index: usize,
    pub size_bytes: u64,
}

/// How a scanned file's size is counted.
#[derive(Debug, Clone, Copy, PartialEq, Eq, Structural)]
pub enum HardlinkAccounting {
    /// Count the size under this entry.
    Count(u64),
    /// Another path of the same file already carries its size.
    Duplicate,
    /// This entry now carries the size, taken from the entry that carried it before.
    Reassign { previous_entry_index: usize, size_bytes: u64 },
}

/// Path `a` orders strictly before path `b`.
pub open spec fn path_lt(a: Seq<char>, b: Seq<char>) -> bool {
    path_le(a, b) && components(a) != components(b)
}

/// The owner recorded for `id`, if any.
pub open spec fn owner_of(owners: Seq<(FileIdentity, HardlinkOwner)>, id: FileIdentity) -> Option<HardlinkOwner>
    decreases owners.len(),
{
    if owners.len() == 0 {
        None
    } else if owners[0].0 == id {
        Some(owners[0].1)
    } else {
        owner_of(owners.drop_first(), id)
    }
}

/// Which entry carries the size of each hard-linked file seen so far.
#[derive(Debug, Clone)]
pub struct HardlinkTracker {
    owners: Vec<(FileIdentity, HardlinkOwner)>,
}

impl HardlinkTracker {
    pub closed spec fn owner(&self, id: FileIdentity) -> Option<HardlinkOwner> {
        owner_of(self.owners@, id)
    }

    /// No file seen yet.
    pub fn new() -> (res: Self)
        ensures
            forall|id: FileIdentity| #[trigger] res.owner(id) is None,
    {
        HardlinkTracker { owners: Vec::new() }
    }

    /// Account a file of `size_bytes` at `path`, entry `entry_index`. A file with no hard-link
    /// identity is counted; the first path of a hard-linked file is counted and owns it; a later
    /// path owns it instead only when it orders before the owner's path.
    pub fn account_identity(&mut self, identity: Option<FileIdentity>, size_bytes: u64, path: &str, entry_index: usize) -> (res: HardlinkAccounting)
        ensures
            match identity {
                None => res == HardlinkAccounting::Count(size_bytes) && forall|id: FileIdentity| #[trigger] final(self).owner(id) == old(self).owner(id),
                Some(id) => match old(self).owner(id) {
                    None => {
                        &&& res == HardlinkAccounting::Count(size_bytes)
                        &&& final(self).owner(id) matches Some(o) && o.path@ == path@ && o.entry_index == entry_index && o.size_bytes == size_bytes
                        &&& forall|other: FileIdentity| other != id ==> #[trigger] final(self).owner(other) == old(self).owner(other)
                    },
                    Some(owner) => if path_lt(path@, owner.path@) {
                        &&& res == (HardlinkAccounting::Reassign { previous_entry_index: owner.entry_index, size_bytes: owner.size_bytes })
                        &&& final(self).owner(id) matches Some(o) && o.path@ == path@ && o.entry_index == entry_index && o.size_bytes == owner.size_bytes
                        &&& forall|other: FileIdentity| other != id ==> #[trigger] final(self).owner(other) == old(self).owner(other)
                    } else {
                        &&& res == HardlinkAccounting::Duplicate
                        &&& forall|other: FileIdentity| #[trigger] final(self).owner(other) == old(self).owner(other)
                    },
                },
            },
    {
        let id = match identity {
            None => {
                return HardlinkAccounting::Count(size_bytes);
            },
            Some(id) => id,
        };
        let ghost before = self.owners@;
        let mut i: usize = 0;
        assert(before.skip(0) =~= before);
        while i < self.owners.len()
            invariant
                i <= before.len(),
                self.owners@ == before,
                before == old(self).owners@,
                identity == Some(id),
                owner_of(before, id) == owner_of(before.skip(i as int), id),
                forall|k: int| 0 <= k < i ==> before[k].0 != id,
            decreases self.owners.len() - i,
        {
            assert(before.skip(i as int)[0] == before[i as int]);
            if self.owners[i].0 == id {
                let owner_path = self.owners[i].1.path.as_str();
                let earlier = crate::path::path_le_exec(path, owner_path) && !crate::path::paths_equal(path, owner_path);
                if earlier {
                    let previous_entry_index = self.owners[i].1.entry_index;
                    let kept_size = self.owners[i].1.size_bytes;
                    let ghost owner = self.owners@[i as int].1;
                    let replacement = (id, HardlinkOwner { path: path.to_owned(), entry_index, size_bytes: kept_size });
                    self.owners.set(i, replacement);
                    proof {
                        lemma_owner_update(before, i as int, replacement);
                    }
                    return HardlinkAccounting::Reassign { previous_entry_index, size_bytes: kept_size };
                }
                return HardlinkAccounting::Duplicate;
            }
            assert(before.skip(i as int).drop_first() =~= before.skip(i + 1));
            i = i + 1;
        }
        let entry = (id, HardlinkOwner { path: path.to_owned(), entry_index, size_bytes });
        self.owners.push(entry);
        proof {
            lemma_owner_push(before, entry);
        }
        HardlinkAccounting::Count(size_bytes)
    }
}

proof fn lemma_owner_update(v: Seq<(FileIdentity, HardlinkOwner)>, i: int, e: (FileIdentity, HardlinkOwner))
    requires
        0 <= i < v.len(),
        v[i].0 == e.0,
        forall|k: int| 0 <= k < i ==> v[k].0 != e.0,
    ensures
        owner_of(v.update(i, e), e.0) == Some(e.1),
        forall|other: FileIdentity| other != e.0 ==> #[trigger] owner_of(v.update(i, e), other) == owner_of(v, other),
    decreases i,
{
    let u = v.update(i, e);
    if i > 0 {
        lemma_owner_update(v.drop_first(), i - 1, e);
        assert(u.drop_first() =~= v.drop_first().update(i - 1, e));
        assert(u[0] == v[0]);
        assert forall|other: FileIdentity| other != e.0 implies #[trigger] owner_of(u, other) == owner_of(v, other) by {
            if v[0].0 != other {
                assert(owner_of(v.drop_first().update(i - 1, e), other) == owner_of(v.drop_first(), other));
            }
        }
    } else {
        assert(u[0] == e);
        assert(u.drop_first() =~= v.drop_first());
        assert forall|other: FileIdentity| other != e.0 implies #[trigger] owner_of(u, other) == owner_of(v, other) by {
            assert(owner_of(u, other) == owner_of(u.drop_first(), other));
            assert(owner_of(v, other) == owner_of(v.drop_first(), other));
        }
    }
}

proof fn lemma_owner_push(v: Seq<(FileIdentity, HardlinkOwner)>, e: (FileIdentity, HardlinkOwner))
    requires
        forall|k: int| 0 <= k < v.len() ==> v[k].0 != e.0,
    ensures
        owner_of(v.push(e), e.0) == Some(e.1),
        forall|other: FileIdentity| other != e.0 ==> #[trigger] owner_of(v.push(e), other) == owner_of(v, other),
    decreases v.len(),
{
    let u = v.push(e);
    if v.len() > 0 {
        lemma_owner_push(v.drop_first(), e);
        assert(u.drop_first() =~= v.drop_first().push(e));
        assert(u[0] == v[0]);
        assert forall|other: FileIdentity| other != e.0 implies #[trigger] owner_of(u, other) == owner_of(v, other) by {
            if v[0].0 != other {
                assert(owner_of(v.drop_first().push(e), other) == owner_of(v.drop_first(), other));
            }
        }
    } else {
        assert(u[0] == e);
        assert(u.drop_first() =~= Seq::<(FileIdentity, HardlinkOwner)>::empty());
        assert forall|other: FileIdentity| other != e.0 implies #[trigger] owner_of(u, other) == owner_of(v, other) by {
            assert(owner_of(u, other) == owner_of(u.drop_first(), other));
        }
    }
}

} // verus!
