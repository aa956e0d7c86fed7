//! The partitions of a device, as the system's block metadata shows them.
use vstd::prelude::*;

use crate::device::{dev_path, Device};
use crate::error::StorageError;
use crate::path::{dir_part, final_bounds, final_component};
use crate::text::{attribute_number, parse_number};

verus! {

/// One partition of a device.
#[derive(Debug)]
pub struct Partition {
    /// Name of the device the partition belongs to.
    pub parent: String,
    /// Position of the partition in the device's table, counting from 1.
    pub index: usize,
    /// The partition's device node.
    pub path: String,
}

/// What the system exposes about one block entry when looking for partitions.
#[derive(Debug)]
pub struct PartitionEntry {
    /// The entry's name, such as `sda1`.
    pub name: String,
    /// Where the entry's link points, such as `../../devices/.../block/sda/sda1`.
    pub link: String,
    /// Contents of the entry's `partition` attribute; `None` when it has none
    /// (the entry is a whole device) or when it is not yet readable.
    pub partition: Option<Vec<u8>>,
}

/// The entry is a partition of the device named `d`: its link lies under the
/// device's own entry and it carries a partition index.
pub open spec fn belongs_to(d: Seq<char>, e: PartitionEntry) -> bool {
    final_component(dir_part(e.link@)) == d && e.partition is Some
}

/// The entries that are partitions of device `d`, in discovery order.
pub open spec fn owned_entries(d: Seq<char>, es: Seq<PartitionEntry>) -> Seq<PartitionEntry>
    decreases es.len(),
{
    if es.len() == 0 {
        Seq::empty()
    } else {
        let rest = owned_entries(d, es.drop_last());
        if belongs_to(d, es.last()) {
            rest.push(es.last())
        } else {
            rest
        }
    }
}

/// The index that a partition entry carries, if it reads as a number.
pub open spec fn entry_index(e: PartitionEntry) -> Option<nat> {
    attribute_number(e.partition->Some_0@)
}

/// Some entry of `o` carries index `k`.
pub open spec fn index_used(o: Seq<PartitionEntry>, k: nat) -> bool {
    exists|i: int| 0 <= i < o.len() && entry_index(o[i]) == Some(k)
}

/// The indices of `o` are exactly `1..=o.len()`, each once.
pub open spec fn dense_indices(o: Seq<PartitionEntry>) -> bool {
    &&& forall|i: int| 0 <= i < o.len() ==> (#[trigger] entry_index(o[i])) is Some
    &&& forall|i: int|
        0 <= i < o.len() ==> 1 <= (#[trigger] entry_index(o[i]))->Some_0 <= o.len()
    &&& forall|i: int, j: int|
        0 <= i < j < o.len() ==> #[trigger] entry_index(o[i]) != #[trigger] entry_index(o[j])
    &&& forall|k: int| 1 <= k <= o.len() ==> #[trigger] index_used(o, k as nat)
}

/// `p` is the partition of device `d` with index `k` that entry `e` describes.
pub open spec fn describes(d: Seq<char>, e: PartitionEntry, k: nat, p: Partition) -> bool {
    &&& entry_index(e) == Some(k)
    &&& p.index == k
    &&& p.parent@ == d
    &&& p.path@ == dev_path(e.name@)
}

/// `p` is the partition with index `k` that some entry of `o` describes.
pub open spec fn described_by(d: Seq<char>, o: Seq<PartitionEntry>, k: nat, p: Partition) -> bool {
    exists|i: int| 0 <= i < o.len() && describes(d, o[i], k, p)
}

/// Indices `1, 2, ..., n` in order, without gaps.
pub open spec fn gapless(ps: Seq<Partition>) -> bool {
    forall|k: int| 0 <= k < ps.len() ==> (#[trigger] ps[k]).index == k + 1
}

fn same_text(a: &str, b: &String) -> (r: bool)
    ensures
        r == (a@ == b@),
{
    String::from_str(a) == *b
}

/// Whether entry `e` is a partition of the device named `d`.
fn entry_belongs(d: &String, e: &PartitionEntry) -> (r: bool)
    ensures
        r == belongs_to(d@, *e),
{
    if e.partition.is_none() {
        return false;
    }
    let link = e.link.as_str();
    let (i, _j) = final_bounds(link);
    let dir = link.substring_char(0, i);
    let (a, b) = final_bounds(dir);
    same_text(dir.substring_char(a, b), d)
}

impl Device {
    /// The partitions of this device, in ascending index order.
    ///
    /// Entries that are not partitions of this device are ignored. The call
    /// fails with `Resolution` when an index does not read as a number, or
    /// when the indices are not exactly `1..=n` with each used once; the
    /// table may have changed since the entries were read.
    pub fn partitions(&self, entries: &Vec<PartitionEntry>) -> (r: Result<
        Vec<Partition>,
        StorageError,
    >)
        ensures
            ({
                let o = owned_entries(self.name@, entries@);
                match r {
                    Ok(ps) => {
                        &&& dense_indices(o)
                        &&& ps@.len() == o.len()
                        &&& gapless(ps@)
                        &&& forall|k: int|
                            0 <= k < ps@.len() ==> described_by(
                                self.name@,
                                o,
                                (k + 1) as nat,
                                #[trigger] ps@[k],
                            )
                    },
                    Err(e) => !dense_indices(o) && e is Resolution,
                }
            }),
    {
        let ghost d = self.name@;
        // The partitions of this device: index read (zero when unreadable) and name.
        let mut found: Vec<(usize, String)> = Vec::new();
        let mut bad = false;
        let mut i: usize = 0;
        assert(entries@.subrange(0, 0) =~= Seq::<PartitionEntry>::empty());
        while i < entries.len()
            invariant
                i <= entries@.len(),
                d == self.name@,
                ({
                    let o = owned_entries(d, entries@.subrange(0, i as int));
                    &&& found@.len() == o.len()
                    &&& forall|m: int|
                        0 <= m < o.len() ==> (#[trigger] found@[m]).1@ == o[m].name@
                    &&& forall|m: int|
                        0 <= m < o.len() ==> (entry_index(o[m]) matches Some(v) ==> (
                        #[trigger] found@[m]).0 == v)
                    &&& bad == exists|m: int| 0 <= m < o.len() && entry_index(#[trigger] o[m]) is None
                }),
            decreases entries@.len() - i,
        {
            let e = &entries[i];
            let ghost prefix = entries@.subrange(0, i as int + 1);
            assert(prefix.drop_last() =~= entries@.subrange(0, i as int));
            assert(prefix.last() == entries@[i as int]);
            let ghost before = owned_entries(d, entries@.subrange(0, i as int));
            if entry_belongs(&self.name, e) {
                let v = match &e.partition {
                    Some(p) => parse_number(p.as_slice()),
                    None => None,
                };
                let ghost o = before.push(*e);
                assert(owned_entries(d, prefix) == o);
                match v {
                    Some(v) => found.push((v, e.name.clone())),
                    None => {
                        bad = true;
                        found.push((0, e.name.clone()));
                    },
                }
                proof {
                    assert forall|m: int| 0 <= m < o.len() implies (#[trigger] found@[m]).1@
                        == o[m].name@ by {
                        if m < before.len() {
                            assert(o[m] == before[m]);
                        }
                    }
                    assert forall|m: int| 0 <= m < o.len() implies (entry_index(o[m]) matches Some(
                        w,
                    ) ==> (#[trigger] found@[m]).0 == w) by {
                        if m < before.len() {
                            assert(o[m] == before[m]);
                        }
                    }
                    if bad {
                        if exists|m: int| 0 <= m < before.len() && entry_index(#[trigger] before[m]) is None {
                            let m = choose|m: int| 0 <= m < before.len() && entry_index(#[trigger] before[m]) is None;
                            assert(o[m] == before[m]);
                        } else {
                            assert(entry_index(o[before.len() as int]) is None);
                        }
                    } else {
                        assert forall|m: int| 0 <= m < o.len() implies !(entry_index(#[trigger] o[m]) is None) by {
                            if m < before.len() {
                                assert(o[m] == before[m]);
                            }
                        }
                    }
                }
            } else {
                assert(owned_entries(d, prefix) == before);
            }
            i = i + 1;
        }
        assert(entries@.subrange(0, i as int) =~= entries@);
        let ghost o = owned_entries(d, entries@);
        if bad {
            return Err(StorageError::Resolution);
        }
        let n = found.len();
        assert forall|j: int| 0 <= j < n implies entry_index(#[trigger] o[j]) == Some(
            found@[j].0 as nat,
        ) by {
            assert(!(entry_index(o[j]) is None));
        }
        // slots[k] is the position in `found` of the partition with index k + 1.
        let mut slots: Vec<Option<usize>> = Vec::new();
        while slots.len() < n
            invariant
                slots@.len() <= n,
                forall|k: int| 0 <= k < slots@.len() ==> #[trigger] slots@[k] is None,
            decreases n - slots@.len(),
        {
            slots.push(None);
        }
        let mut m: usize = 0;
        while m < n
            invariant
                m <= n,
                o == owned_entries(self.name@, entries@),
                n == found@.len(),
                n == o.len(),
                slots@.len() == n,
                forall|j: int| 0 <= j < n ==> entry_index(#[trigger] o[j]) == Some(found@[j].0 as nat),
                forall|j: int| 0 <= j < m ==> 1 <= (#[trigger] found@[j]).0 <= n,
                forall|j: int| 0 <= j < m ==> slots@[(#[trigger] found@[j]).0 - 1] == Some(j as usize),
                forall|k: int|
                    0 <= k < n ==> (#[trigger] slots@[k] matches Some(j) ==> j < m && found@[j as int].0
                        == k + 1),
            decreases n - m,
        {
            let v = found[m].0;
            if v < 1 || v > n {
                assert(!dense_indices(o)) by {
                    assert(entry_index(o[m as int]) == Some(v as nat));
                }
                return Err(StorageError::Resolution);
            }
            if slots[v - 1].is_some() {
                assert(!dense_indices(o)) by {
                    let j = slots@[v - 1]->Some_0 as int;
                    assert(entry_index(o[j]) == entry_index(o[m as int]));
                }
                return Err(StorageError::Resolution);
            }
            slots.set(v - 1, Some(m));
            m = m + 1;
        }
        let mut ps: Vec<Partition> = Vec::new();
        let mut k: usize = 0;
        while k < n
            invariant
                k <= n,
                o == owned_entries(self.name@, entries@),
                n == found@.len(),
                n == o.len(),
                slots@.len() == n,
                d == self.name@,
                forall|j: int| 0 <= j < n ==> entry_index(#[trigger] o[j]) == Some(found@[j].0 as nat),
                forall|j: int| 0 <= j < n ==> (#[trigger] found@[j]).1@ == o[j].name@,
                forall|j: int| 0 <= j < n ==> 1 <= (#[trigger] found@[j]).0 <= n,
                forall|j: int| 0 <= j < n ==> slots@[(#[trigger] found@[j]).0 - 1] == Some(j as usize),
                forall|q: int|
                    0 <= q < n ==> (#[trigger] slots@[q] matches Some(j) ==> j < n && found@[j as int].0
                        == q + 1),
                forall|q: int| 0 <= q < k ==> (#[trigger] slots@[q]) is Some,
                ps@.len() == k,
                gapless(ps@),
                forall|q: int| 0 <= q < k ==> described_by(d, o, (q + 1) as nat, #[trigger] ps@[q]),
            decreases n - k,
        {
            match slots[k] {
                None => {
                    assert(!dense_indices(o)) by {
                        if dense_indices(o) {
                            assert(index_used(o, (k + 1) as nat));
                            let j = choose|j: int| 0 <= j < o.len() && #[trigger] entry_index(o[j]) == Some((k + 1) as nat);
                            assert(found@[j].0 == k + 1);
                        }
                    }
                    return Err(StorageError::Resolution);
                },
                Some(j) => {
                    let p = Partition {
                        parent: self.name.clone(),
                        index: k + 1,
                        path: String::from_str("/dev/").concat(found[j].1.as_str()),
                    };
                    assert(describes(d, o[j as int], (k + 1) as nat, p));
                    ps.push(p);
                    proof {
                        assert forall|q: int| 0 <= q < k + 1 implies described_by(
                            d,
                            o,
                            (q + 1) as nat,
                            #[trigger] ps@[q],
                        ) by {
                            if q == k {
                                assert(describes(d, o[j as int], (q + 1) as nat, ps@[q]));
                            } else {
                                assert(ps@[q] == ps@.drop_last()[q]);
                            }
                        }
                    }
                },
            }
            k = k + 1;
        }
        proof {
            assert forall|q: int| 1 <= q <= o.len() implies #[trigger] index_used(o, q as nat) by {
                let j = slots@[q - 1]->Some_0 as int;
                assert(entry_index(o[j]) == Some(q as nat));
            }
            assert forall|i: int, j: int| 0 <= i < j < o.len() implies #[trigger] entry_index(o[i])
                != #[trigger] entry_index(o[j]) by {
                assert(slots@[found@[i].0 - 1] == Some(i as usize));
                assert(slots@[found@[j].0 - 1] == Some(j as usize));
            }
            assert forall|j: int| 0 <= j < o.len() implies 1 <= (#[trigger] entry_index(o[j]))->Some_0
                <= o.len() by {
                assert(1 <= found@[j].0 <= n);
            }
            assert(dense_indices(o));
        }
        Ok(ps)
    }
}

/// Gapless indices are strictly ascending, start at 1 and end at the count.
pub proof fn lemma_gapless_ascending(ps: Seq<Partition>)
    requires
        gapless(ps),
    ensures
        forall|i: int, j: int| 0 <= i < j < ps.len() ==> (#[trigger] ps[i]).index < (#[trigger] ps[j]).index,
        ps.len() > 0 ==> ps[0].index == 1 && ps.last().index == ps.len(),
{
}

/// A freshly written three-partition table resolves: when the device's own
/// entries are three, carrying indices 1, 2 and 3 in any order, the indices
/// are dense, so `partitions` returns exactly three partitions, in index order.
pub proof fn lemma_three_partitions_resolve(d: Seq<char>, es: Seq<PartitionEntry>)
    requires
        owned_entries(d, es).len() == 3,
        forall|i: int|
            0 <= i < 3 ==> ((#[trigger] entry_index(owned_entries(d, es)[i])) matches Some(v) && 1
                <= v <= 3),
        forall|i: int, j: int|
            0 <= i < j < 3 ==> #[trigger] entry_index(owned_entries(d, es)[i]) != #[trigger] entry_index(
                owned_entries(d, es)[j],
            ),
    ensures
        dense_indices(owned_entries(d, es)),
{
    let o = owned_entries(d, es);
    let a = entry_index(o[0])->Some_0;
    let b = entry_index(o[1])->Some_0;
    let c = entry_index(o[2])->Some_0;
    assert(entry_index(o[0]) != entry_index(o[1]));
    assert(entry_index(o[0]) != entry_index(o[2]));
    assert(entry_index(o[1]) != entry_index(o[2]));
    assert forall|k: int| 1 <= k <= o.len() implies #[trigger] index_used(o, k as nat) by {
        if a == k {
            assert(entry_index(o[0]) == Some(k as nat));
        } else if b == k {
            assert(entry_index(o[1]) == Some(k as nat));
        } else {
            assert(c == k);
            assert(entry_index(o[2]) == Some(k as nat));
        }
    }
}

} // verus!
