//! Block devices: naming, and the catalog of devices that an install can target.
use vstd::prelude::*;

use crate::error::StorageError;
use crate::path::{final_bounds, final_component, names_file, path_names_file};
use crate::text::{attribute_flag, attribute_number, parse_flag, parse_number};

verus! {

/// A block device, as the system reported it when it was listed.
#[derive(Debug)]
pub struct Device {
    /// The kernel's name for the device, such as `sda`.
    pub name: String,
    /// The size the system reports for the device; zero when unknown.
    pub bytes: usize,
}

/// What the system exposes about one block device. Each attribute is `None`
/// when the device has no such attribute.
#[derive(Debug)]
pub struct BlockEntry {
    pub name: String,
    /// Contents of the `hidden` attribute.
    pub hidden: Option<Vec<u8>>,
    /// Contents of the declared `size` attribute.
    pub size: Option<Vec<u8>>,
    /// Contents of the `size` attribute found through the device's identifier.
    pub dev_size: Option<Vec<u8>>,
}

/// The device node of a device name.
pub open spec fn dev_path(name: Seq<char>) -> Seq<char> {
    "/dev/"@ + name
}

/// A device as a name and a size.
pub open spec fn device_view(d: Device) -> (Seq<char>, nat) {
    (d.name@, d.bytes as nat)
}

pub open spec fn devices_view(s: Seq<Device>) -> Seq<(Seq<char>, nat)> {
    s.map_values(|d: Device| device_view(d))
}

/// What one entry contributes to the catalog.
pub enum EntryReading {
    /// Not a candidate: hidden, lacking an attribute, or of size zero.
    Skip,
    /// An attribute holds something other than a number.
    Malformed,
    /// A candidate of the given size.
    Found(nat),
}

pub open spec fn entry_reading(e: BlockEntry) -> EntryReading {
    match e.hidden {
        None => EntryReading::Skip,
        Some(h) => if attribute_flag(h@) {
            EntryReading::Skip
        } else {
            match e.size {
                None => EntryReading::Skip,
                Some(s) => if attribute_number(s@) is None {
                    EntryReading::Malformed
                } else {
                    match e.dev_size {
                        None => EntryReading::Skip,
                        Some(z) => match attribute_number(z@) {
                            None => EntryReading::Malformed,
                            Some(v) => if v == 0 {
                                EntryReading::Skip
                            } else {
                                EntryReading::Found(v)
                            },
                        },
                    }
                },
            }
        },
    }
}

pub open spec fn any_malformed(es: Seq<BlockEntry>) -> bool {
    exists|i: int| 0 <= i < es.len() && entry_reading(#[trigger] es[i]) is Malformed
}

/// The candidates among `es`, in discovery order.
pub open spec fn discovered(es: Seq<BlockEntry>) -> Seq<(Seq<char>, nat)>
    decreases es.len(),
{
    if es.len() == 0 {
        Seq::empty()
    } else {
        let rest = discovered(es.drop_last());
        match entry_reading(es.last()) {
            EntryReading::Found(v) => rest.push((es.last().name@, v)),
            _ => rest,
        }
    }
}

/// Index of the first element of `s` smaller than `v`, or `s.len()`.
pub open spec fn first_smaller(s: Seq<(Seq<char>, nat)>, v: nat) -> nat
    decreases s.len(),
{
    if s.len() == 0 || s[0].1 < v {
        0
    } else {
        1 + first_smaller(s.drop_first(), v)
    }
}

/// `s` sorted by size, largest first; devices of equal size keep their order.
pub open spec fn sort_by_size(s: Seq<(Seq<char>, nat)>) -> Seq<(Seq<char>, nat)>
    decreases s.len(),
{
    if s.len() == 0 {
        s
    } else {
        let sorted = sort_by_size(s.drop_last());
        sorted.insert(first_smaller(sorted, s.last().1) as int, s.last())
    }
}

proof fn lemma_first_smaller(s: Seq<(Seq<char>, nat)>, v: nat, k: int)
    requires
        0 <= k <= s.len(),
        forall|m: int| 0 <= m < k ==> (#[trigger] s[m]).1 >= v,
        k == s.len() || s[k].1 < v,
    ensures
        first_smaller(s, v) == k,
    decreases k,
{
    if k > 0 {
        let t = s.drop_first();
        assert forall|m: int| 0 <= m < k - 1 implies (#[trigger] t[m]).1 >= v by {
            assert(t[m] == s[m + 1]);
        }
        if k < s.len() {
            assert(t[k - 1] == s[k]);
        }
        lemma_first_smaller(t, v, k - 1);
    }
}

/// Largest first: no device is listed after a smaller one.
pub open spec fn by_size_desc(s: Seq<(Seq<char>, nat)>) -> bool {
    forall|i: int, j: int| 0 <= i < j < s.len() ==> (#[trigger] s[i]).1 >= (#[trigger] s[j]).1
}

/// `d` is what the catalog shows for entry `e`: a visible device of the
/// positive size read through its identifier.
pub open spec fn shown_as(e: BlockEntry, d: (Seq<char>, nat)) -> bool {
    &&& e.name@ == d.0
    &&& d.1 > 0
    &&& e.hidden is Some && !attribute_flag(e.hidden->Some_0@)
    &&& e.dev_size is Some && attribute_number(e.dev_size->Some_0@) == Some(d.1)
}

proof fn lemma_first_smaller_bounds(s: Seq<(Seq<char>, nat)>, v: nat)
    ensures
        first_smaller(s, v) <= s.len(),
        forall|m: int| 0 <= m < first_smaller(s, v) ==> (#[trigger] s[m]).1 >= v,
        first_smaller(s, v) < s.len() ==> s[first_smaller(s, v) as int].1 < v,
    decreases s.len(),
{
    if s.len() > 0 && s[0].1 >= v {
        let t = s.drop_first();
        lemma_first_smaller_bounds(t, v);
        assert forall|m: int| 0 <= m < first_smaller(s, v) implies (#[trigger] s[m]).1 >= v by {
            if m > 0 {
                assert(s[m] == t[m - 1]);
            }
        }
    }
}

/// No two devices of `s` have the same size.
pub open spec fn distinct_sizes(s: Seq<(Seq<char>, nat)>) -> bool {
    forall|i: int, j: int| 0 <= i < j < s.len() ==> (#[trigger] s[i]).1 != (#[trigger] s[j]).1
}

proof fn lemma_sort_by_size(s: Seq<(Seq<char>, nat)>)
    ensures
        sort_by_size(s).len() == s.len(),
        by_size_desc(sort_by_size(s)),
        forall|i: int| 0 <= i < s.len() ==> s.contains(#[trigger] sort_by_size(s)[i]),
        distinct_sizes(s) ==> distinct_sizes(sort_by_size(s)),
    decreases s.len(),
{
    if s.len() > 0 {
        let rest = s.drop_last();
        let sorted = sort_by_size(rest);
        let x = s.last();
        lemma_sort_by_size(rest);
        lemma_first_smaller_bounds(sorted, x.1);
        let k = first_smaller(sorted, x.1) as int;
        let r = sorted.insert(k, x);
        assert forall|i: int, j: int| 0 <= i < j < r.len() implies (#[trigger] r[i]).1 >= (
        #[trigger] r[j]).1 by {
            if i < k && j == k {
                assert(r[i] == sorted[i]);
            } else if i == k {
                assert(r[j] == sorted[j - 1]);
            } else if j < k {
                assert(r[i] == sorted[i] && r[j] == sorted[j]);
            } else if i < k {
                assert(r[i] == sorted[i] && r[j] == sorted[j - 1]);
            } else {
                assert(r[i] == sorted[i - 1] && r[j] == sorted[j - 1]);
            }
        }
        assert forall|i: int| 0 <= i < s.len() implies s.contains(#[trigger] r[i]) by {
            if i == k {
                assert(s[s.len() - 1] == x);
            } else {
                let y = if i < k { sorted[i] } else { sorted[i - 1] };
                assert(r[i] == y);
                let m = choose|m: int| 0 <= m < rest.len() && rest[m] == y;
                assert(s[m] == rest[m]);
            }
        }
        if distinct_sizes(s) {
            assert(distinct_sizes(rest)) by {
                assert forall|i: int, j: int| 0 <= i < j < rest.len() implies (#[trigger] rest[i]).1
                    != (#[trigger] rest[j]).1 by {
                    assert(rest[i] == s[i] && rest[j] == s[j]);
                }
            }
            assert forall|i: int| 0 <= i < sorted.len() implies (#[trigger] sorted[i]).1 != x.1 by {
                let m = choose|m: int| 0 <= m < rest.len() && rest[m] == sorted[i];
                assert(s[m] == rest[m]);
            }
            assert forall|i: int, j: int| 0 <= i < j < r.len() implies (#[trigger] r[i]).1 != (
            #[trigger] r[j]).1 by {
                if i < k && j == k {
                    assert(r[i] == sorted[i]);
                } else if i == k {
                    assert(r[j] == sorted[j - 1]);
                } else if j < k {
                    assert(r[i] == sorted[i] && r[j] == sorted[j]);
                } else if i < k {
                    assert(r[i] == sorted[i] && r[j] == sorted[j - 1]);
                } else {
                    assert(r[i] == sorted[i - 1] && r[j] == sorted[j - 1]);
                }
            }
        }
    }
}

proof fn lemma_discovered_shown(es: Seq<BlockEntry>)
    ensures
        forall|i: int|
            0 <= i < discovered(es).len() ==> exists|k: int|
                0 <= k < es.len() && shown_as(es[k], #[trigger] discovered(es)[i]),
    decreases es.len(),
{
    if es.len() > 0 {
        let rest = es.drop_last();
        lemma_discovered_shown(rest);
        let d = discovered(es);
        assert forall|i: int| 0 <= i < d.len() implies exists|k: int|
            0 <= k < es.len() && shown_as(es[k], #[trigger] d[i]) by {
            if i < discovered(rest).len() {
                assert(d[i] == discovered(rest)[i]);
                let k = choose|k: int| 0 <= k < rest.len() && shown_as(rest[k], discovered(rest)[i]);
                assert(es[k] == rest[k]);
            } else {
                assert(shown_as(es[es.len() - 1], d[i]));
            }
        }
    }
}

/// The catalog lists devices largest first, and every device it lists is a
/// visible entry of positive size.
pub proof fn lemma_catalog_sorted_and_visible(es: Seq<BlockEntry>)
    ensures
        by_size_desc(sort_by_size(discovered(es))),
        forall|i: int|
            0 <= i < sort_by_size(discovered(es)).len() ==> exists|k: int|
                0 <= k < es.len() && shown_as(es[k], #[trigger] sort_by_size(discovered(es))[i]),
{
    let d = discovered(es);
    lemma_sort_by_size(d);
    lemma_discovered_shown(es);
    let s = sort_by_size(d);
    assert forall|i: int| 0 <= i < s.len() implies exists|k: int|
        0 <= k < es.len() && shown_as(es[k], #[trigger] s[i]) by {
        let m = choose|m: int| 0 <= m < d.len() && d[m] == s[i];
        assert(exists|k: int| 0 <= k < es.len() && shown_as(es[k], d[m]));
    }
}

/// When no two candidates share a size, the catalog is in strictly
/// descending order of size. (Devices of equal size keep their discovery
/// order, so with ties the order cannot be strict.)
pub proof fn lemma_catalog_strictly_sorted(es: Seq<BlockEntry>)
    requires
        distinct_sizes(discovered(es)),
    ensures
        forall|i: int, j: int|
            0 <= i < j < sort_by_size(discovered(es)).len() ==> (#[trigger] sort_by_size(
                discovered(es),
            )[i]).1 > (#[trigger] sort_by_size(discovered(es))[j]).1,
{
    lemma_sort_by_size(discovered(es));
}

fn read_entry(e: &BlockEntry) -> (r: Result<Option<usize>, StorageError>)
    ensures
        match entry_reading(*e) {
            EntryReading::Skip => r == Ok::<Option<usize>, StorageError>(None),
            EntryReading::Malformed => r is Err,
            EntryReading::Found(v) => r is Ok && r->Ok_0 == Some(v as usize),
        },
{
    let hidden = match &e.hidden {
        None => return Ok(None),
        Some(h) => h,
    };
    if parse_flag(hidden.as_slice()) {
        return Ok(None);
    }
    let size = match &e.size {
        None => return Ok(None),
        Some(s) => s,
    };
    if parse_number(size.as_slice()).is_none() {
        return Err(StorageError::Enumeration);
    }
    let dev_size = match &e.dev_size {
        None => return Ok(None),
        Some(z) => z,
    };
    match parse_number(dev_size.as_slice()) {
        None => Err(StorageError::Enumeration),
        Some(v) => if v == 0 {
            Ok(None)
        } else {
            Ok(Some(v))
        },
    }
}

impl Device {
    /// The device node, `/dev/<name>`.
    pub fn dev(&self) -> (r: String)
        ensures
            r@ == dev_path(self.name@),
    {
        String::from_str("/dev/").concat(self.name.as_str())
    }

    /// The device that a path names by its final component, such as `sda`
    /// for `/dev/sda`. Its size is not read: it is zero.
    pub fn from_path(path: &str) -> (d: Device)
        requires
            names_file(path@),
        ensures
            d.name@ == final_component(path@),
            d.bytes == 0,
    {
        let (i, j) = final_bounds(path);
        Device { name: String::from_str(path.substring_char(i, j)), bytes: 0 }
    }

    /// Whether `path` can be handed to `from_path`: it ends in a component
    /// that is neither empty nor `.` nor `..`.
    pub fn names_device(path: &str) -> (r: bool)
        ensures
            r == names_file(path@),
    {
        path_names_file(path)
    }

    /// The devices that can be installed onto, largest first; devices of
    /// equal size keep the order in which they were discovered. Hidden
    /// devices, devices lacking an attribute and devices of size zero are
    /// left out; an attribute that holds no number fails the whole listing.
    pub fn list(entries: &Vec<BlockEntry>) -> (r: Result<Vec<Device>, StorageError>)
        ensures
            match r {
                Ok(ds) => !any_malformed(entries@) && devices_view(ds@) == sort_by_size(
                    discovered(entries@),
                ),
                Err(e) => any_malformed(entries@) && e is Enumeration,
            },
    {
        let mut out: Vec<Device> = Vec::new();
        let mut i: usize = 0;
        assert(entries@.subrange(0, 0) =~= Seq::<BlockEntry>::empty());
        assert(devices_view(out@) =~= Seq::<(Seq<char>, nat)>::empty());
        while i < entries.len()
            invariant
                i <= entries@.len(),
                !any_malformed(entries@.subrange(0, i as int)),
                devices_view(out@) == sort_by_size(discovered(entries@.subrange(0, i as int))),
            decreases entries@.len() - i,
        {
            let e = &entries[i];
            let ghost prefix = entries@.subrange(0, i as int + 1);
            assert(prefix.drop_last() =~= entries@.subrange(0, i as int));
            assert(prefix.last() == entries@[i as int]);
            match read_entry(e) {
                Err(_) => {
                    assert(entry_reading(entries@[i as int]) is Malformed);
                    return Err(StorageError::Enumeration);
                },
                Ok(None) => {
                    assert(discovered(prefix) == discovered(entries@.subrange(0, i as int)));
                },
                Ok(Some(v)) => {
                    let mut k: usize = 0;
                    while k < out.len() && out[k].bytes >= v
                        invariant
                            k <= out@.len(),
                            forall|m: int| 0 <= m < k ==> (#[trigger] out@[m]).bytes >= v,
                        decreases out@.len() - k,
                    {
                        k = k + 1;
                    }
                    let ghost before = devices_view(out@);
                    proof {
                        assert forall|m: int| 0 <= m < k implies (#[trigger] before[m]).1 >= v by {
                            assert(before[m] == device_view(out@[m]));
                        }
                        if k < out@.len() {
                            assert(before[k as int] == device_view(out@[k as int]));
                        }
                        lemma_first_smaller(before, v as nat, k as int);
                    }
                    let d = Device { name: e.name.clone(), bytes: v };
                    out.insert(k, d);
                    assert(devices_view(out@) =~= before.insert(k as int, device_view(d)));
                    let ghost found = discovered(entries@.subrange(0, i as int)).push(
                        device_view(d),
                    );
                    assert(discovered(prefix) == found);
                    assert(found.drop_last() =~= discovered(entries@.subrange(0, i as int)));
                    assert(sort_by_size(found) == devices_view(out@));
                },
            }
            proof {
                assert forall|j: int| 0 <= j < prefix.len() implies !(entry_reading(
                    #[trigger] prefix[j],
                ) is Malformed) by {
                    if j < i {
                        assert(prefix[j] == entries@.subrange(0, i as int)[j]);
                    }
                }
            }
            i = i + 1;
        }
        assert(entries@.subrange(0, i as int) =~= entries@);
        Ok(out)
    }
}

} // verus!
