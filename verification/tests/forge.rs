use slate::forge::{resolve_partition, MountError, MountGuard};

#[test]
fn partitions_of_nvme_and_mmc_take_a_p() {
    assert_eq!(resolve_partition("/dev/sda", 1), "/dev/sda1");
    assert_eq!(resolve_partition("/dev/vdb", 12), "/dev/vdb12");
    assert_eq!(resolve_partition("/dev/nvme0n1", 2), "/dev/nvme0n1p2");
    assert_eq!(resolve_partition("/dev/mmcblk0", 1), "/dev/mmcblk0p1");
    assert_eq!(resolve_partition("/dev/sda", 0), "/dev/sda0");
    assert_eq!(resolve_partition("/dev/sda", -3), "/dev/sda-3");
    assert_eq!(resolve_partition("/dev/sda", i32::MAX), "/dev/sda2147483647");
    assert_eq!(resolve_partition("/dev/nvme0n1", i32::MIN), "/dev/nvme0n1p-2147483648");
    assert_eq!(resolve_partition("", 7), "7");
}

#[test]
fn guard_releases_newest_first() {
    let mut g = MountGuard::new();
    assert!(g.release_order().is_empty());
    assert_eq!(g.mount("/mnt", true), Ok(()));
    assert_eq!(g.mount("/mnt/home", true), Ok(()));
    assert_eq!(g.mount("/mnt/boot", false), Err(MountError::MountFailed));
    assert_eq!(g.mount("/mnt/var", true), Ok(()));
    assert_eq!(g.release_order(), vec!["/mnt/var", "/mnt/home", "/mnt"]);
}

#[test]
fn unmount_forgets_the_newest_entry_of_the_target() {
    let mut g = MountGuard::new();
    for t in ["/mnt", "/a", "/mnt", "/b"] {
        assert_eq!(g.mount(t, true), Ok(()));
    }
    assert_eq!(g.unmount("/mnt", false), Err(MountError::UnmountFailed));
    assert_eq!(g.release_order(), vec!["/b", "/mnt", "/a", "/mnt"]);
    assert_eq!(g.unmount("/mnt", true), Ok(()));
    assert_eq!(g.release_order(), vec!["/b", "/a", "/mnt"]);
    assert_eq!(g.unmount("/nowhere", true), Ok(()));
    assert_eq!(g.release_order(), vec!["/b", "/a", "/mnt"]);
    assert_eq!(g.unmount("/mnt", true), Ok(()));
    assert_eq!(g.unmount("/mnt", true), Ok(()));
    assert_eq!(g.release_order(), vec!["/b", "/a"]);
}
