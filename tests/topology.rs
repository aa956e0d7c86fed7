use arch_installer::device::Device;
use arch_installer::error::StorageError;
use arch_installer::topology::{Partition, PartitionEntry};

fn part(name: &str, parent: &str, index: Option<&str>) -> PartitionEntry {
    PartitionEntry {
        name: name.to_string(),
        link: format!("../../devices/pci0000:00/0000:00:1f.2/ata1/host0/block/{}/{}", parent, name),
        partition: index.map(|s| s.as_bytes().to_vec()),
    }
}

fn whole(name: &str) -> PartitionEntry {
    PartitionEntry {
        name: name.to_string(),
        link: format!("../../devices/pci0000:00/0000:00:1f.2/ata1/host0/block/{}", name),
        partition: None,
    }
}

fn sda() -> Device {
    Device { name: "sda".to_string(), bytes: 0 }
}

fn view(ps: &[Partition]) -> Vec<(String, usize, String)> {
    ps.iter().map(|p| (p.parent.clone(), p.index, p.path.clone())).collect()
}

#[test]
fn partitions_come_in_index_order() {
    let entries = vec![
        part("sda3", "sda", Some("3\n")),
        whole("sda"),
        part("sda1", "sda", Some("1\n")),
        part("sdb1", "sdb", Some("1\n")),
        part("sda2", "sda", Some("2\n")),
        whole("sdb"),
    ];
    let ps = sda().partitions(&entries).unwrap();
    assert_eq!(
        view(&ps),
        vec![
            ("sda".to_string(), 1, "/dev/sda1".to_string()),
            ("sda".to_string(), 2, "/dev/sda2".to_string()),
            ("sda".to_string(), 3, "/dev/sda3".to_string()),
        ]
    );
}

#[test]
fn a_device_without_partitions_has_none() {
    let entries = vec![whole("sda"), part("sdb1", "sdb", Some("1"))];
    assert!(sda().partitions(&entries).unwrap().is_empty());
}

#[test]
fn a_gap_in_the_indices_is_refused() {
    let entries = vec![part("sda1", "sda", Some("1")), part("sda3", "sda", Some("3"))];
    assert!(matches!(sda().partitions(&entries), Err(StorageError::Resolution)));
}

#[test]
fn a_repeated_index_is_refused() {
    let entries = vec![part("sda1", "sda", Some("1")), part("sdax", "sda", Some("1"))];
    assert!(matches!(sda().partitions(&entries), Err(StorageError::Resolution)));
}

#[test]
fn an_unreadable_index_is_refused() {
    let entries = vec![part("sda1", "sda", Some("one"))];
    assert!(matches!(sda().partitions(&entries), Err(StorageError::Resolution)));
}

#[test]
fn index_zero_is_refused() {
    let entries = vec![part("sda0", "sda", Some("0"))];
    assert!(matches!(sda().partitions(&entries), Err(StorageError::Resolution)));
}

#[test]
fn other_devices_do_not_disturb_resolution() {
    let entries = vec![part("sdb7", "sdb", Some("garbage")), part("sda1", "sda", Some("1"))];
    let ps = sda().partitions(&entries).unwrap();
    assert_eq!(view(&ps), vec![("sda".to_string(), 1, "/dev/sda1".to_string())]);
}
