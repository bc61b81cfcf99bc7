use slate::install::{fill_boot_template, patch_boot_entry};
use slate::preflight::{check_mounts, confirm_destruction};

#[test]
fn mounted_devices_are_found_in_any_line() {
    let table = "proc /proc proc rw 0 0\n/dev/sda2 / ext4 rw 0 0\n/dev/sdb1 /mnt ext4 rw 0 0";
    assert!(check_mounts(table, "/dev/sda"));
    assert!(check_mounts(table, "/dev/sdb1"));
    assert!(check_mounts(table, "sdb"));
    assert!(!check_mounts(table, "/dev/sdc"));
    assert!(!check_mounts(table, "0 0\n/dev"));
    assert!(!check_mounts("", "/dev/sda"));
    assert!(check_mounts(table, ""));
    assert!(!check_mounts("", ""));
}

#[test]
fn destruction_needs_the_exact_name() {
    assert!(confirm_destruction("/dev/sda\n", "/dev/sda"));
    assert!(confirm_destruction("  /dev/sda \t\r\n", "/dev/sda"));
    assert!(confirm_destruction("/dev/sda", "/dev/sda"));
    assert!(!confirm_destruction("/dev/sdb\n", "/dev/sda"));
    assert!(!confirm_destruction("/dev/ sda\n", "/dev/sda"));
    assert!(!confirm_destruction("\n", "/dev/sda"));
    assert!(!confirm_destruction("", "/dev/sda"));
    assert!(confirm_destruction(" \n", ""));
    for (input, device) in [(" a b ", "a b"), ("x", "x"), ("\u{a0}x\u{3000}", "x"), ("   ", "")] {
        assert_eq!(confirm_destruction(input, device), input.trim() == device);
    }
}

#[test]
fn boot_entry_gets_the_new_root() {
    let entry = "title Arch\noptions root=PARTUUID=0000-aaaa rw quiet root=PARTUUID=1111\n";
    assert_eq!(
        patch_boot_entry(entry, "abcd-42").unwrap(),
        "title Arch\noptions root=PARTUUID=abcd-42 rw quiet root=PARTUUID=1111\n"
    );
    assert_eq!(patch_boot_entry("no root here", "abcd").unwrap(), "no root here");
    assert_eq!(patch_boot_entry("root=PARTUUID= x", "abcd").unwrap(), "root=PARTUUID= x");
}

#[test]
fn boot_template_gets_the_root_everywhere() {
    assert_eq!(
        fill_boot_template("a {{ROOT_PARTUUID}} b {{ROOT_PARTUUID}}{{ROOT_PARTUUID}}", "id-1"),
        "a id-1 b id-1id-1"
    );
    assert_eq!(fill_boot_template("{{ROOT_PARTUUID}", "x"), "{{ROOT_PARTUUID}");
    assert_eq!(fill_boot_template("", "x"), "");
    for t in ["{{{ROOT_PARTUUID}}}", "x{{ROOT_PARTUUID}}", "{{ROOT_PARTUUID}}{{ROOT", "plain"] {
        assert_eq!(fill_boot_template(t, "{{ROOT_PARTUUID}}"), t.replace("{{ROOT_PARTUUID}}", "{{ROOT_PARTUUID}}"));
        assert_eq!(fill_boot_template(t, "id"), t.replace("{{ROOT_PARTUUID}}", "id"));
    }
}
