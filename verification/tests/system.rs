use slate::system::{
    detect_partuuid, get_partuuid, get_root_device, get_uuid, mapped_device, parent_device,
    parse_mount_table, resolve_stable_id, trace_chain, trace_to_physical_partition, BlockDeviceNode,
    DetectError, DeviceResolutionError, IdLink, IdNamespace, MountEntry, ResolvedPath, SystemInfo,
};

fn node(name: &str, slaves: &[&str]) -> BlockDeviceNode {
    BlockDeviceNode { name: name.to_string(), slaves: slaves.iter().map(|s| s.to_string()).collect() }
}

fn resolved(path: &str, canonical: &str) -> ResolvedPath {
    ResolvedPath { path: path.to_string(), canonical: canonical.to_string() }
}

fn link(name: &str, target: Option<&str>) -> IdLink {
    IdLink { name: name.to_string(), target: target.map(|t| t.to_string()) }
}

fn laptop() -> SystemInfo {
    SystemInfo {
        mounts: parse_mount_table(
            "proc /proc proc rw 0 0\n/dev/mapper/root / btrfs rw,noatime 0 0\n/dev/nvme0n1p1 /boot/EFI vfat rw 0 0\n",
        ),
        resolved: vec![
            resolved("/dev/mapper/root", "/dev/dm-0"),
            resolved("/dev/dm-0", "/dev/dm-0"),
            resolved("/dev/nvme0n1p2", "/dev/nvme0n1p2"),
            resolved("/dev/nvme0n1p1", "/dev/nvme0n1p1"),
        ],
        block_devices: vec![
            node("nvme0n1", &[]),
            node("nvme0n1p1", &[]),
            node("nvme0n1p2", &[]),
            node("dm-0", &["nvme0n1p2"]),
        ],
        by_partuuid: Some(vec![
            link("aaaa-01", Some("/dev/nvme0n1p1")),
            link("broken", None),
            link("aaaa-02", Some("/dev/nvme0n1p2")),
            link("aaaa-02-again", Some("/dev/nvme0n1p2")),
        ]),
        by_uuid: Some(vec![link("luks-uuid", Some("/dev/nvme0n1p2")), link("fs-uuid", Some("/dev/dm-0"))]),
    }
}

#[test]
fn mount_table_lines_need_two_fields() {
    let entries = parse_mount_table("a /x ext4\n\nlonely\n  b\t/y  \r\nc / btrfs");
    let pairs: Vec<(String, String)> =
        entries.into_iter().map(|e| (e.device_spec, e.mount_point)).collect();
    assert_eq!(
        pairs,
        vec![
            ("a".to_string(), "/x".to_string()),
            ("b".to_string(), "/y".to_string()),
            ("c".to_string(), "/".to_string()),
        ]
    );
    assert!(parse_mount_table("").is_empty());
    assert!(parse_mount_table("\n\n").is_empty());
}

#[test]
fn root_device_is_the_first_entry_at_the_root() {
    let mut info = laptop();
    assert_eq!(get_root_device(&info), Ok("/dev/mapper/root".to_string()));
    info.mounts.push(MountEntry { device_spec: "/dev/other".to_string(), mount_point: "/".to_string() });
    assert_eq!(get_root_device(&info), Ok("/dev/mapper/root".to_string()));
    info.mounts = parse_mount_table("proc /proc proc\n/dev/sda1 /home ext4\n/ nothing\n");
    assert_eq!(get_root_device(&info), Err(DeviceResolutionError::MountEntryNotFound));
    info.mounts = Vec::new();
    assert_eq!(get_root_device(&info), Err(DeviceResolutionError::MountEntryNotFound));
}

#[test]
fn terminal_device_is_returned_unchanged() {
    let info = laptop();
    assert_eq!(trace_to_physical_partition(&info, "/dev/nvme0n1p2"), Ok("/dev/nvme0n1p2".to_string()));
    assert_eq!(trace_chain(&info, "/dev/nvme0n1p2"), Ok(vec!["/dev/nvme0n1p2".to_string()]));
}

#[test]
fn mapped_device_resolves_to_its_partition() {
    let info = laptop();
    assert_eq!(trace_to_physical_partition(&info, "/dev/mapper/root"), Ok("/dev/nvme0n1p2".to_string()));
    assert_eq!(
        trace_chain(&info, "/dev/mapper/root"),
        Ok(vec!["/dev/dm-0".to_string(), "/dev/nvme0n1p2".to_string()])
    );
}

#[test]
fn chain_of_n_virtual_devices_takes_n_steps() {
    for n in 0usize..6 {
        let mut nodes = vec![node("sda1", &[])];
        for i in 0..n {
            let below = if i == 0 { "sda1".to_string() } else { format!("dm-{}", i - 1) };
            nodes.push(node(&format!("dm-{}", i), &[&below, "ignored"]));
        }
        let info = SystemInfo {
            mounts: Vec::new(),
            resolved: Vec::new(),
            block_devices: nodes,
            by_partuuid: None,
            by_uuid: None,
        };
        let top = if n == 0 { "/dev/sda1".to_string() } else { format!("/dev/dm-{}", n - 1) };
        let chain = trace_chain(&info, &top).unwrap();
        assert_eq!(chain.len(), n + 1);
        assert_eq!(chain[0], top);
        assert_eq!(chain[n], "/dev/sda1");
        assert_eq!(trace_to_physical_partition(&info, &top), Ok("/dev/sda1".to_string()));
    }
}

#[test]
fn self_reference_and_cycles_fail() {
    let mut info = laptop();
    info.block_devices = vec![node("dm-0", &["dm-0"])];
    assert_eq!(
        trace_to_physical_partition(&info, "/dev/mapper/root"),
        Err(DeviceResolutionError::SysfsEntryMissing)
    );
    info.block_devices = vec![node("dm-0", &["dm-1"]), node("dm-1", &["dm-2"]), node("dm-2", &["dm-0"])];
    assert_eq!(trace_chain(&info, "/dev/dm-0"), Err(DeviceResolutionError::SysfsEntryMissing));
    assert_eq!(trace_chain(&info, "/dev/dm-1"), Err(DeviceResolutionError::SysfsEntryMissing));
}

#[test]
fn missing_records_fail() {
    let mut info = laptop();
    assert_eq!(
        trace_to_physical_partition(&info, "/dev/sdz9"),
        Err(DeviceResolutionError::SysfsEntryMissing)
    );
    info.block_devices = vec![node("dm-0", &["gone"])];
    assert_eq!(
        trace_to_physical_partition(&info, "/dev/mapper/root"),
        Err(DeviceResolutionError::SysfsEntryMissing)
    );
    assert_eq!(trace_chain(&info, "/dev/"), Err(DeviceResolutionError::SysfsEntryMissing));
}

#[test]
fn stable_id_is_the_first_link_to_the_device() {
    let info = laptop();
    assert_eq!(get_partuuid(&info, "/dev/nvme0n1p2"), Ok("aaaa-02".to_string()));
    assert_eq!(get_partuuid(&info, "/dev/nvme0n1p1"), Ok("aaaa-01".to_string()));
    assert_eq!(get_uuid(&info, "/dev/nvme0n1p2"), Ok("luks-uuid".to_string()));
    assert_eq!(get_uuid(&info, "/dev/mapper/root"), Ok("fs-uuid".to_string()));
    assert_eq!(resolve_stable_id(&info, "/dev/dm-0", IdNamespace::Uuid), Ok("fs-uuid".to_string()));
}

#[test]
fn stable_id_failures() {
    let mut info = laptop();
    assert_eq!(get_partuuid(&info, "/dev/dm-0"), Err(DeviceResolutionError::IdNotFound));
    assert_eq!(get_uuid(&info, "/dev/nvme0n1p1"), Err(DeviceResolutionError::IdNotFound));
    assert_eq!(get_partuuid(&info, "/dev/unknown"), Err(DeviceResolutionError::SymlinkUnresolved));
    info.by_partuuid = None;
    assert_eq!(get_partuuid(&info, "/dev/nvme0n1p2"), Err(DeviceResolutionError::SysfsEntryMissing));
    assert_eq!(get_partuuid(&info, "/dev/unknown"), Err(DeviceResolutionError::SysfsEntryMissing));
    assert_eq!(get_uuid(&info, "/dev/nvme0n1p2"), Ok("luks-uuid".to_string()));
    info.by_uuid = Some(Vec::new());
    assert_eq!(get_uuid(&info, "/dev/nvme0n1p2"), Err(DeviceResolutionError::IdNotFound));
}

#[test]
fn partuuid_of_the_root_partition() {
    let mut info = laptop();
    assert_eq!(detect_partuuid(&info), Ok("aaaa-02".to_string()));
    info.mounts = parse_mount_table("/dev/nvme0n1p2 / ext4 rw 0 0\n");
    assert_eq!(detect_partuuid(&info), Err(DetectError::NotMapped));
    info.mounts = parse_mount_table("/dev/dm-0 / ext4 rw 0 0\n");
    assert_eq!(detect_partuuid(&info), Ok("aaaa-02".to_string()));
    info.mounts = parse_mount_table("/dev/dm-7 / ext4 rw 0 0\n");
    assert_eq!(
        detect_partuuid(&info),
        Err(DetectError::Resolution(DeviceResolutionError::SysfsEntryMissing))
    );
    info.mounts = Vec::new();
    assert_eq!(
        detect_partuuid(&info),
        Err(DetectError::Resolution(DeviceResolutionError::MountEntryNotFound))
    );
    let mut info = laptop();
    info.by_partuuid = Some(vec![link("aaaa-01", Some("/dev/nvme0n1p1"))]);
    assert_eq!(detect_partuuid(&info), Err(DetectError::Resolution(DeviceResolutionError::IdNotFound)));
}

#[test]
fn mapped_devices_by_prefix() {
    assert!(mapped_device("/dev/mapper/root"));
    assert!(mapped_device("/dev/dm-0"));
    assert!(!mapped_device("/dev/sda1"));
    assert!(!mapped_device("/dev/mapper"));
    assert!(!mapped_device("dev/mapper/root"));
}

#[test]
fn parent_is_the_second_field_of_the_first_matching_line() {
    let listing = "nvme0n1 \nnvme0n1p1 nvme0n1\nnvme0n1p2 nvme0n1\nroot nvme0n1p2\nroot other\n";
    assert_eq!(parent_device(listing, "root"), Some("nvme0n1p2".to_string()));
    assert_eq!(parent_device(listing, "nvme0n1p1"), Some("nvme0n1".to_string()));
    assert_eq!(parent_device(listing, "nvme0n1"), None);
    assert_eq!(parent_device(listing, "swap"), None);
    assert_eq!(parent_device("", "root"), None);
}
