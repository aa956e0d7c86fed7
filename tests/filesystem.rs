use arch_installer::error::StorageError;
use arch_installer::filesystem::{from_str, words, Filesystem};
use arch_installer::topology::Partition;

fn p3() -> Partition {
    Partition { parent: "sda".to_string(), index: 3, path: "/dev/sda3".to_string() }
}

fn cmds(cs: &[&[&str]]) -> Vec<Vec<String>> {
    cs.iter().map(|c| c.iter().map(|w| w.to_string()).collect()).collect()
}

#[test]
fn only_zfs_is_offered_for_root() {
    assert_eq!(from_str("zfs").unwrap(), Filesystem::Zfs);
    assert!(matches!(from_str("ext4"), Err(StorageError::UnknownFilesystem)));
    assert!(matches!(from_str("ZFS"), Err(StorageError::UnknownFilesystem)));
    assert!(matches!(from_str(""), Err(StorageError::UnknownFilesystem)));
}

#[test]
fn display_names() {
    assert_eq!(Filesystem::Ext4.name(), "ext4");
    assert_eq!(Filesystem::Fat32.name(), "FAT32");
    assert_eq!(Filesystem::Zfs.name(), "ZFS");
}

#[test]
fn only_zfs_has_a_dependency_check() {
    assert_eq!(Filesystem::Zfs.dependency_command(), Some(cmds(&[&["modprobe", "zfs"]]).remove(0)));
    assert_eq!(Filesystem::Ext4.dependency_command(), None);
    assert_eq!(Filesystem::Fat32.dependency_command(), None);
}

#[test]
fn init_commands_of_each_filesystem() {
    assert_eq!(Filesystem::Ext4.init_commands(&p3()), cmds(&[&["mkfs.ext4", "/dev/sda3"]]));
    assert_eq!(Filesystem::Fat32.init_commands(&p3()), cmds(&[&["mkfs.vfat", "-F32", "/dev/sda3"]]));
    assert_eq!(
        Filesystem::Zfs.init_commands(&p3()),
        cmds(&[
            &["dd", "if=/dev/urandom", "of=/dev/sda3", "bs=512", "count=20480"],
            &["zpool", "create", "-f", "zroot", "-m", "none", "/dev/sda3"],
        ])
    );
}

#[test]
fn cleanup_commands_of_each_filesystem() {
    assert_eq!(Filesystem::Ext4.cleanup_commands(), cmds(&[&["umount", "/mnt/boot"], &["umount", "/mnt"]]));
    assert!(Filesystem::Fat32.cleanup_commands().is_empty());
    assert_eq!(
        Filesystem::Zfs.cleanup_commands(),
        cmds(&[&["umount", "/mnt/boot"], &["zfs", "umount", "-a"], &["zpool", "destroy", "zroot"]])
    );
}

#[test]
fn words_make_a_command_line() {
    assert_eq!(words(&["echo", "true"]), vec!["echo".to_string(), "true".to_string()]);
    assert!(words(&[]).is_empty());
}

#[test]
fn test_init() {
    let partition = Partition { parent: "foobar".to_string(), index: 1, path: "/tmp/foobar".to_string() };
    assert_eq!(Filesystem::Ext4.init_commands(&partition), cmds(&[&["mkfs.ext4", "/tmp/foobar"]]));
}
