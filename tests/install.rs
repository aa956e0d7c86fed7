use arch_installer::device::Device;
use arch_installer::error::StorageError;
use arch_installer::filesystem::Filesystem;
use arch_installer::install::{Installer, Outcome, Plan, Stage, MAX_TOPOLOGY_READS};
use arch_installer::topology::PartitionEntry;

fn plan(fs: Filesystem, clean_first: bool) -> Plan {
    Plan { device: Device { name: "sda".to_string(), bytes: 0 }, filesystem: fs, clean_first }
}

fn words(ws: &[&str]) -> Vec<String> {
    ws.iter().map(|w| w.to_string()).collect()
}

fn sda_entries(n: usize) -> Vec<PartitionEntry> {
    let mut es = vec![PartitionEntry {
        name: "sda".to_string(),
        link: "../../devices/pci0000:00/block/sda".to_string(),
        partition: None,
    }];
    for i in (1..=n).rev() {
        es.push(PartitionEntry {
            name: format!("sda{}", i),
            link: format!("../../devices/pci0000:00/block/sda/sda{}", i),
            partition: Some(format!("{}\n", i).into_bytes()),
        });
    }
    es
}

/// The current task as stage, command and target.
fn task(inst: &Installer) -> (Stage, Vec<String>, String) {
    let t = inst.current().unwrap();
    (t.stage, t.command.clone(), t.target.clone())
}

fn succeed(inst: &mut Installer) -> Option<Result<(), StorageError>> {
    inst.report(Outcome::Succeeded)
}

fn parted(dev: &str) -> Vec<String> {
    words(&[
        "parted", "--script", dev, "--", "mklabel", "gpt", "mkpart", "ESP", "fat32", "1MiB", "2GiB",
        "set", "1", "boot", "on", "mkpart", "primary", "ext4", "2GiB", "3GiB", "mkpart", "primary",
        "ext4", "3GiB", "100%",
    ])
}

#[test]
fn a_zfs_run_goes_through_every_stage() {
    let mut inst = Installer::new(plan(Filesystem::Zfs, false));
    assert_eq!(task(&inst), (Stage::Preconditions, vec![], String::new()));
    assert!(succeed(&mut inst).is_none());
    assert_eq!(task(&inst), (Stage::Dependencies, words(&["modprobe", "zfs"]), String::new()));
    assert!(succeed(&mut inst).is_none());
    assert_eq!(task(&inst), (Stage::PartitionDisk, parted("/dev/sda"), "/dev/sda".to_string()));
    assert!(succeed(&mut inst).is_none());
    assert_eq!(task(&inst), (Stage::ResolvePartitions, vec![], "/dev/sda".to_string()));
    assert!(inst.report(Outcome::Entries(sda_entries(3))).is_none());
    assert_eq!(inst.partitions.len(), 3);
    assert_eq!(
        inst.partitions.iter().map(|p| p.index).collect::<Vec<_>>(),
        vec![1, 2, 3]
    );
    let expected = vec![
        (Stage::WipePartitions, words(&["wipefs", "-a", "/dev/sda1"]), "/dev/sda1"),
        (Stage::WipePartitions, words(&["wipefs", "-a", "/dev/sda3"]), "/dev/sda3"),
        (Stage::FormatBoot, words(&["mkfs.vfat", "-F32", "/dev/sda1"]), "/dev/sda1"),
        (
            Stage::FormatRoot,
            words(&["dd", "if=/dev/urandom", "of=/dev/sda3", "bs=512", "count=20480"]),
            "/dev/sda3",
        ),
        (
            Stage::FormatRoot,
            words(&["zpool", "create", "-f", "zroot", "-m", "none", "/dev/sda3"]),
            "/dev/sda3",
        ),
    ];
    let last = expected.len() - 1;
    for (i, (stage, command, target)) in expected.into_iter().enumerate() {
        assert_eq!(task(&inst), (stage, command, target.to_string()));
        let r = succeed(&mut inst);
        if i < last {
            assert!(r.is_none());
        } else {
            assert!(matches!(r, Some(Ok(()))));
        }
    }
    assert!(inst.current().is_none());
}

#[test]
fn a_missing_zfs_module_stops_the_run_before_any_change() {
    let mut inst = Installer::new(plan(Filesystem::Zfs, false));
    assert_eq!(task(&inst).0, Stage::Preconditions);
    assert!(succeed(&mut inst).is_none());
    assert_eq!(task(&inst).0, Stage::Dependencies);
    let r = inst.report(Outcome::Failed);
    assert!(matches!(r, Some(Err(StorageError::Dependency))));
    assert!(inst.current().is_none());
    assert!(inst.partitions.is_empty());
}

#[test]
fn a_system_not_booted_in_efi_mode_stops_the_run() {
    let mut inst = Installer::new(plan(Filesystem::Zfs, true));
    assert!(matches!(inst.report(Outcome::Failed), Some(Err(StorageError::Precondition))));
    assert!(inst.current().is_none());
}

#[test]
fn a_rerun_after_a_failed_format_cleans_up_first() {
    // The first run fails while formatting the root partition.
    let mut first = Installer::new(plan(Filesystem::Zfs, false));
    for _ in 0..3 {
        assert!(succeed(&mut first).is_none());
    }
    assert!(first.report(Outcome::Entries(sda_entries(3))).is_none());
    for _ in 0..4 {
        assert!(succeed(&mut first).is_none());
    }
    assert_eq!(task(&first).0, Stage::FormatRoot);
    match first.report(Outcome::ExitedNonZero) {
        Some(Err(StorageError::Command { command, target })) => {
            assert_eq!(command, words(&["zpool", "create", "-f", "zroot", "-m", "none", "/dev/sda3"]));
            assert_eq!(target, "/dev/sda3");
        }
        other => panic!("unexpected {:?}", other),
    }
    // The second run tears down what is left, then partitions again.
    let mut second = Installer::new(plan(Filesystem::Zfs, true));
    assert!(succeed(&mut second).is_none());
    assert!(succeed(&mut second).is_none());
    let teardown = vec![
        words(&["umount", "/mnt/boot"]),
        words(&["zfs", "umount", "-a"]),
        words(&["zpool", "destroy", "zroot"]),
    ];
    for command in teardown {
        assert_eq!(task(&second), (Stage::Cleanup, command, String::new()));
        assert!(succeed(&mut second).is_none());
    }
    assert_eq!(task(&second).0, Stage::PartitionDisk);
}

#[test]
fn a_teardown_command_that_cannot_start_ends_the_run() {
    let mut inst = Installer::new(plan(Filesystem::Ext4, true));
    assert!(succeed(&mut inst).is_none());
    assert_eq!(task(&inst), (Stage::Cleanup, words(&["umount", "/mnt/boot"]), String::new()));
    match inst.report(Outcome::Failed) {
        Some(Err(StorageError::Command { command, target })) => {
            assert_eq!(command, words(&["umount", "/mnt/boot"]));
            assert_eq!(target, "");
        }
        other => panic!("unexpected {:?}", other),
    }
}

#[test]
fn an_ext4_root_needs_no_dependency_check() {
    let mut inst = Installer::new(plan(Filesystem::Ext4, false));
    assert!(succeed(&mut inst).is_none());
    assert_eq!(task(&inst).0, Stage::PartitionDisk);
}

#[test]
fn partitions_are_read_again_until_three_appear() {
    let mut inst = Installer::new(plan(Filesystem::Ext4, false));
    assert!(succeed(&mut inst).is_none());
    assert!(succeed(&mut inst).is_none());
    assert!(inst.report(Outcome::Entries(sda_entries(0))).is_none());
    assert!(inst.report(Outcome::Entries(sda_entries(2))).is_none());
    assert_eq!(task(&inst).0, Stage::ResolvePartitions);
    assert!(inst.report(Outcome::Entries(sda_entries(3))).is_none());
    assert_eq!(task(&inst), (Stage::WipePartitions, words(&["wipefs", "-a", "/dev/sda1"]), "/dev/sda1".to_string()));
}

#[test]
fn partitions_that_never_appear_end_the_run() {
    let mut inst = Installer::new(plan(Filesystem::Ext4, false));
    assert!(succeed(&mut inst).is_none());
    assert!(succeed(&mut inst).is_none());
    for _ in 0..MAX_TOPOLOGY_READS - 1 {
        assert!(inst.report(Outcome::Entries(sda_entries(2))).is_none());
    }
    let r = inst.report(Outcome::Entries(sda_entries(2)));
    assert!(matches!(r, Some(Err(StorageError::Resolution))));
    assert!(inst.current().is_none());
}

#[test]
fn four_partitions_are_not_the_layout() {
    let mut inst = Installer::new(plan(Filesystem::Ext4, false));
    assert!(succeed(&mut inst).is_none());
    assert!(succeed(&mut inst).is_none());
    for _ in 0..MAX_TOPOLOGY_READS - 1 {
        assert!(inst.report(Outcome::Entries(sda_entries(4))).is_none());
    }
    assert!(matches!(inst.report(Outcome::Entries(sda_entries(4))), Some(Err(StorageError::Resolution))));
}

#[test]
fn an_ext4_root_is_formatted_with_mkfs() {
    let mut inst = Installer::new(plan(Filesystem::Ext4, false));
    assert!(succeed(&mut inst).is_none());
    assert!(succeed(&mut inst).is_none());
    assert!(inst.report(Outcome::Entries(sda_entries(3))).is_none());
    for _ in 0..3 {
        assert!(succeed(&mut inst).is_none());
    }
    assert_eq!(task(&inst), (Stage::FormatRoot, words(&["mkfs.ext4", "/dev/sda3"]), "/dev/sda3".to_string()));
    assert!(matches!(succeed(&mut inst), Some(Ok(()))));
}

#[test]
fn a_rerun_gets_through_teardown_commands_that_find_nothing_to_undo() {
    // After a run that failed while formatting the root partition nothing is
    // mounted and the pool may not exist: each teardown command exits
    // unsuccessfully, and the run still goes on to partition.
    let mut inst = Installer::new(plan(Filesystem::Zfs, true));
    assert!(succeed(&mut inst).is_none());
    assert!(succeed(&mut inst).is_none());
    let teardown = vec![
        words(&["umount", "/mnt/boot"]),
        words(&["zfs", "umount", "-a"]),
        words(&["zpool", "destroy", "zroot"]),
    ];
    for command in teardown {
        assert_eq!(task(&inst), (Stage::Cleanup, command, String::new()));
        assert!(inst.report(Outcome::ExitedNonZero).is_none());
    }
    assert_eq!(task(&inst), (Stage::PartitionDisk, parted("/dev/sda"), "/dev/sda".to_string()));
}

#[test]
fn an_ext4_rerun_with_nothing_mounted_gets_through_teardown() {
    let mut inst = Installer::new(plan(Filesystem::Ext4, true));
    assert!(succeed(&mut inst).is_none());
    assert_eq!(task(&inst), (Stage::Cleanup, words(&["umount", "/mnt/boot"]), String::new()));
    assert!(inst.report(Outcome::ExitedNonZero).is_none());
    assert_eq!(task(&inst), (Stage::Cleanup, words(&["umount", "/mnt"]), String::new()));
    assert!(inst.report(Outcome::ExitedNonZero).is_none());
    assert_eq!(task(&inst).0, Stage::PartitionDisk);
}

#[test]
fn a_nonzero_exit_outside_teardown_ends_the_run() {
    let mut inst = Installer::new(plan(Filesystem::Zfs, false));
    assert!(succeed(&mut inst).is_none());
    assert!(matches!(inst.report(Outcome::ExitedNonZero), Some(Err(StorageError::Dependency))));

    let mut inst = Installer::new(plan(Filesystem::Ext4, false));
    assert!(succeed(&mut inst).is_none());
    match inst.report(Outcome::ExitedNonZero) {
        Some(Err(StorageError::Command { command, target })) => {
            assert_eq!(command, parted("/dev/sda"));
            assert_eq!(target, "/dev/sda");
        }
        other => panic!("unexpected {:?}", other),
    }
}
