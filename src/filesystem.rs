//! Filesystem backends: the tools each one runs to check, create and tear down
//! its filesystem on a partition.
use vstd::prelude::*;

use crate::error::StorageError;
use crate::topology::Partition;

verus! {

/// A command line as words.
pub open spec fn argv(c: Vec<String>) -> Seq<Seq<char>> {
    c@.map_values(|w: String| w@)
}

/// A list of command lines as words.
pub open spec fn argvs(cs: Vec<Vec<String>>) -> Seq<Seq<Seq<char>>> {
    cs@.map_values(|c: Vec<String>| argv(c))
}

/// A command line of words.
pub fn words(ws: &[&str]) -> (r: Vec<String>)
    ensures
        argv(r) == ws@.map_values(|w: &str| w@),
{
    let mut r: Vec<String> = Vec::new();
    let mut i: usize = 0;
    while i < ws.len()
        invariant
            i <= ws@.len(),
            argv(r) == ws@.subrange(0, i as int).map_values(|w: &str| w@),
        decreases ws@.len() - i,
    {
        r.push(String::from_str(ws[i]));
        assert(ws@.subrange(0, i + 1).map_values(|w: &str| w@) =~= ws@.subrange(
            0,
            i as int,
        ).map_values(|w: &str| w@).push(ws@[i as int]@));
        assert(argv(r) =~= argv(r).drop_last().push(r@.last()@));
        i = i + 1;
    }
    assert(ws@.subrange(0, i as int) =~= ws@);
    r
}

/// The filesystems that can be put on a partition. The boot partition is
/// always FAT32; the root partition takes the one the plan names.
#[derive(Clone, Copy, Debug, PartialEq, Eq, Structural)]
pub enum Filesystem {
    Ext4,
    Fat32,
    Zfs,
}

/// The root filesystem that a configuration value names: only `zfs` is offered.
pub open spec fn named_filesystem(s: Seq<char>) -> Option<Filesystem> {
    if s == "zfs"@ {
        Some(Filesystem::Zfs)
    } else {
        None
    }
}

/// The display name of a filesystem.
pub open spec fn display_name(fs: Filesystem) -> Seq<char> {
    match fs {
        Filesystem::Ext4 => "ext4"@,
        Filesystem::Fat32 => "FAT32"@,
        Filesystem::Zfs => "ZFS"@,
    }
}

/// The command that tells whether the system can provide what the filesystem
/// needs; none when it needs nothing.
pub open spec fn dependency_argv(fs: Filesystem) -> Option<Seq<Seq<char>>> {
    match fs {
        Filesystem::Zfs => Some(seq!["modprobe"@, "zfs"@]),
        _ => None,
    }
}

/// The commands that create the filesystem on the partition whose device node is `dev`.
/// For ZFS the first ten megabytes are overwritten with random data, so that no
/// stale signature survives, before the pool `zroot` is created without a
/// default mountpoint.
pub open spec fn init_argvs(fs: Filesystem, dev: Seq<char>) -> Seq<Seq<Seq<char>>> {
    match fs {
        Filesystem::Ext4 => seq![seq!["mkfs.ext4"@, dev]],
        Filesystem::Fat32 => seq![seq!["mkfs.vfat"@, "-F32"@, dev]],
        Filesystem::Zfs => seq![
            seq!["dd"@, "if=/dev/urandom"@, "of="@ + dev, "bs=512"@, "count=20480"@],
            seq!["zpool"@, "create"@, "-f"@, "zroot"@, "-m"@, "none"@, dev],
        ],
    }
}

/// The commands that undo what an earlier run left mounted or created.
pub open spec fn cleanup_argvs(fs: Filesystem) -> Seq<Seq<Seq<char>>> {
    match fs {
        Filesystem::Ext4 => seq![seq!["umount"@, "/mnt/boot"@], seq!["umount"@, "/mnt"@]],
        Filesystem::Fat32 => seq![],
        Filesystem::Zfs => seq![
            seq!["umount"@, "/mnt/boot"@],
            seq!["zfs"@, "umount"@, "-a"@],
            seq!["zpool"@, "destroy"@, "zroot"@],
        ],
    }
}

/// The root filesystem that a configuration value names.
pub fn from_str(s: &str) -> (r: Result<Filesystem, StorageError>)
    ensures
        match named_filesystem(s@) {
            Some(fs) => r matches Ok(f) && f == fs,
            None => r matches Err(e) && e is UnknownFilesystem,
        },
{
    if String::from_str(s) == String::from_str("zfs") {
        Ok(Filesystem::Zfs)
    } else {
        Err(StorageError::UnknownFilesystem)
    }
}

impl Filesystem {
    /// The filesystem's display name.
    pub fn name(&self) -> (r: String)
        ensures
            r@ == display_name(*self),
    {
        match self {
            Filesystem::Ext4 => String::from_str("ext4"),
            Filesystem::Fat32 => String::from_str("FAT32"),
            Filesystem::Zfs => String::from_str("ZFS"),
        }
    }

    /// The command whose success shows that the filesystem's kernel support is
    /// available; `None` when nothing needs checking.
    pub fn dependency_command(&self) -> (r: Option<Vec<String>>)
        ensures
            match dependency_argv(*self) {
                Some(a) => r matches Some(c) && argv(c) == a,
                None => r is None,
            },
    {
        match self {
            Filesystem::Zfs => {
                let c = words(&["modprobe", "zfs"]);
                assert(argv(c) =~= seq!["modprobe"@, "zfs"@]);
                Some(c)
            },
            _ => None,
        }
    }

    /// The commands that create this filesystem on `partition`, to be run in
    /// order. They assume a partition without state of this filesystem: run
    /// `cleanup_commands` first on one that already holds it.
    pub fn init_commands(&self, partition: &Partition) -> (r: Vec<Vec<String>>)
        ensures
            argvs(r) == init_argvs(*self, partition.path@),
    {
        let dev = partition.path.as_str();
        let mut r: Vec<Vec<String>> = Vec::new();
        match self {
            Filesystem::Ext4 => {
                let c = words(&["mkfs.ext4", dev]);
                assert(argv(c) =~= seq!["mkfs.ext4"@, dev@]);
                r.push(c);
            },
            Filesystem::Fat32 => {
                let c = words(&["mkfs.vfat", "-F32", dev]);
                assert(argv(c) =~= seq!["mkfs.vfat"@, "-F32"@, dev@]);
                r.push(c);
            },
            Filesystem::Zfs => {
                let of = String::from_str("of=").concat(dev);
                let c = words(&["dd", "if=/dev/urandom", of.as_str(), "bs=512", "count=20480"]);
                assert(argv(c) =~= seq![
                    "dd"@,
                    "if=/dev/urandom"@,
                    "of="@ + dev@,
                    "bs=512"@,
                    "count=20480"@,
                ]);
                r.push(c);
                let c = words(&["zpool", "create", "-f", "zroot", "-m", "none", dev]);
                assert(argv(c) =~= seq![
                    "zpool"@,
                    "create"@,
                    "-f"@,
                    "zroot"@,
                    "-m"@,
                    "none"@,
                    dev@,
                ]);
                r.push(c);
            },
        }
        assert(argvs(r) =~= init_argvs(*self, partition.path@));
        r
    }

    /// The commands that tear down what this filesystem left mounted or
    /// created, to be run in order.
    pub fn cleanup_commands(&self) -> (r: Vec<Vec<String>>)
        ensures
            argvs(r) == cleanup_argvs(*self),
    {
        let mut r: Vec<Vec<String>> = Vec::new();
        match self {
            Filesystem::Ext4 => {
                let c = words(&["umount", "/mnt/boot"]);
                assert(argv(c) =~= seq!["umount"@, "/mnt/boot"@]);
                r.push(c);
                let c = words(&["umount", "/mnt"]);
                assert(argv(c) =~= seq!["umount"@, "/mnt"@]);
                r.push(c);
            },
            Filesystem::Fat32 => {},
            Filesystem::Zfs => {
                let c = words(&["umount", "/mnt/boot"]);
                assert(argv(c) =~= seq!["umount"@, "/mnt/boot"@]);
                r.push(c);
                let c = words(&["zfs", "umount", "-a"]);
                assert(argv(c) =~= seq!["zfs"@, "umount"@, "-a"@]);
                r.push(c);
                let c = words(&["zpool", "destroy", "zroot"]);
                assert(argv(c) =~= seq!["zpool"@, "destroy"@, "zroot"@]);
                r.push(c);
            },
        }
        assert(argvs(r) =~= cleanup_argvs(*self));
        r
    }
}

} // verus!
