use arch_installer::device::Device;
use arch_installer::install::{partition, wipe};
use arch_installer::mirrors::{rankmirrors, MIRRORLIST_URL};
use arch_installer::topology::Partition;

#[test]
fn partition_writes_the_fixed_layout() {
    let d = Device { name: "nvme0n1".to_string(), bytes: 0 };
    let expected: Vec<String> = [
        "parted", "--script", "/dev/nvme0n1", "--", "mklabel", "gpt", "mkpart", "ESP", "fat32",
        "1MiB", "2GiB", "set", "1", "boot", "on", "mkpart", "primary", "ext4", "2GiB", "3GiB",
        "mkpart", "primary", "ext4", "3GiB", "100%",
    ]
    .iter()
    .map(|w| w.to_string())
    .collect();
    assert_eq!(partition(&d), expected);
}

#[test]
fn wipe_erases_all_signatures_of_the_partition() {
    let p = Partition { parent: "sda".to_string(), index: 1, path: "/dev/sda1".to_string() };
    assert_eq!(wipe(&p), vec!["wipefs".to_string(), "-a".to_string(), "/dev/sda1".to_string()]);
}

#[test]
fn rankmirrors_ranks_the_us_mirror_list() {
    let c = rankmirrors();
    assert_eq!(c.len(), 3);
    assert_eq!(c[0], "bash");
    assert_eq!(c[1], "-c");
    assert_eq!(
        c[2],
        format!(
            "curl -s {} | sed -e 's/^#Server/Server/' -e '/^#/d' | rankmirrors -n 5 - > /etc/pacman.d/mirrorlist",
            MIRRORLIST_URL
        )
    );
    assert!(MIRRORLIST_URL.starts_with("https://www.archlinux.org/mirrorlist/?country=US"));
}
