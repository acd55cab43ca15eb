use removable_storage::{
    device_from_entry, device_name, mounts_for, get_storage_devices, is_removable_flag, parse_u128, size_from_sectors,
    size_from_text, trimmed, Device, RegistryEntry, StorageDevice, StorageError,
};

fn entry(name: &str, removable: &str, model: &str, vendor: &str, size: &str) -> RegistryEntry {
    RegistryEntry {
        name: name.to_string(),
        removable: Some(removable.to_string()),
        model: Some(model.to_string()),
        vendor: Some(vendor.to_string()),
        size: Some(size.to_string()),
    }
}

fn registry() -> Vec<RegistryEntry> {
    vec![
        entry("sda", "0\n", "Samsung SSD 860\n", "ATA     \n", "1953525168\n"),
        entry("sdb", "1\n", "DataTraveler 3.0\n", "Kingston\n", "30253056\n"),
        entry("sr0", "1\n", "CD-ROM\n", "QEMU\n", "2097151\n"),
        entry("loop0", "0\n", "\n", "\n", "1000\n"),
    ]
}

const MOUNTS: &str = "sysfs /sys sysfs rw,nosuid 0 0\n\
/dev/nvme0n1p2 / ext4 rw,relatime 0 0\n\
/dev/sda /media/whole vfat rw 0 0\n\
/dev/sda1 /media/first vfat rw 0 0\n\
/dev/sdb1 /media/other vfat rw 0 0\n";

fn names(devices: &[Device]) -> Vec<String> {
    devices.iter().map(|d| d.name.clone()).collect()
}

#[test]
fn sanity() {
    let devices = get_storage_devices(false, &registry());
    println!("{:?}", devices);
    assert_eq!(names(&devices), vec!["sdb".to_string()]);
}

#[test]
fn allow_non_removable_lists_fixed_disks() {
    let devices = get_storage_devices(true, &registry());
    assert_eq!(names(&devices), vec!["sda".to_string(), "sdb".to_string(), "loop0".to_string()]);
    assert_eq!(devices[0].model(), "Samsung SSD 860");
    assert_eq!(devices[0].vendor(), "ATA");
    assert_eq!(devices[0].size(), 1953525168u128 * 512);
}

#[test]
fn cdrom_never_listed() {
    let mut entries = registry();
    entries.push(entry("sr1", "0\n", "CD-ROM", "HL-DT-ST", "10"));
    for allow in [false, true] {
        let devices = get_storage_devices(allow, &entries);
        assert!(devices.iter().all(|d| d.model() != "CD-ROM"));
        assert!(!names(&devices).contains(&"sr0".to_string()));
    }
}

#[test]
fn cdrom_with_trailing_spaces_is_excluded() {
    let entries = vec![entry("sr0", "1\n", "CD-ROM   \n", "QEMU", "8")];
    assert!(get_storage_devices(false, &entries).is_empty());
}

#[test]
fn only_flag_one_newline_is_removable() {
    let entries = vec![
        entry("a", "1\n", "m", "v", "1"),
        entry("b", "1", "m", "v", "1"),
        entry("c", "1\n\n", "m", "v", "1"),
        entry("d", " 1\n", "m", "v", "1"),
    ];
    let devices = get_storage_devices(false, &entries);
    assert_eq!(names(&devices), vec!["a".to_string()]);
    assert!(is_removable_flag("1\n"));
    assert!(!is_removable_flag("0\n"));
    assert!(!is_removable_flag(""));
}

#[test]
fn unreadable_attributes_drop_the_device() {
    let mut no_model = entry("a", "1\n", "m", "v", "1");
    no_model.model = None;
    let mut no_vendor = entry("b", "1\n", "m", "v", "1");
    no_vendor.vendor = None;
    let mut no_size = entry("c", "1\n", "m", "v", "1");
    no_size.size = None;
    let bad_size = entry("d", "1\n", "m", "v", "12x");
    let mut no_flag = entry("e", "1\n", "m", "v", "1");
    no_flag.removable = None;
    let entries = vec![no_model, no_vendor, no_size, bad_size, no_flag];
    assert!(get_storage_devices(false, &entries).is_empty());
    assert_eq!(names(&get_storage_devices(true, &entries)), vec!["e".to_string()]);
}

#[test]
fn size_is_sector_count_times_512() {
    assert_eq!(size_from_sectors(0), Some(0));
    assert_eq!(size_from_sectors(1), Some(512));
    assert_eq!(size_from_sectors(30253056), Some(15489564672));
    let largest = u128::MAX / 512;
    assert_eq!(size_from_sectors(largest), Some(largest * 512));
    assert_eq!(size_from_sectors(largest).unwrap() / 512, largest);
    assert_eq!(size_from_sectors(largest + 1), None);
    assert_eq!(size_from_text(" 1000\n"), Some(512000));
    assert_eq!(size_from_text("+2"), Some(1024));
    assert_eq!(size_from_text(""), None);
    assert_eq!(size_from_text("-1"), None);
}

#[test]
fn parse_u128_reads_decimal_text() {
    assert_eq!(parse_u128("0"), Some(0));
    assert_eq!(parse_u128("  42\n"), Some(42));
    assert_eq!(parse_u128("340282366920938463463374607431768211455"), Some(u128::MAX));
    assert_eq!(parse_u128("340282366920938463463374607431768211456"), None);
    assert_eq!(parse_u128("+"), None);
    assert_eq!(parse_u128("4 2"), None);
}

#[test]
fn trimmed_removes_trailing_white_space_only() {
    assert_eq!(trimmed("  Kingston \t\n".to_string()), "  Kingston");
    assert_eq!(trimmed(String::new()), "");
    assert_eq!(trimmed("\n\n".to_string()), "");
    assert_eq!(trimmed("SanDisk\u{3000}".to_string()), "SanDisk");
}

#[test]
fn describe_shows_vendor_model_and_size() {
    let entries = vec![entry("sdb", "1\n", "Ultra\n", "SanDisk\n", "1000\n")];
    let devices = get_storage_devices(false, &entries);
    assert_eq!(devices[0].describe(), "SanDisk Ultra (500.00 KiB)");
    let entries = vec![entry("sdc", "1\n", "Tiny", "Acme", "1")];
    assert_eq!(get_storage_devices(false, &entries)[0].describe(), "Acme Tiny (512 B)");
}

#[test]
fn device_name_is_the_leaf() {
    assert_eq!(device_name("/dev/sda"), Ok("sda".to_string()));
    assert_eq!(device_name("/dev/nvme0n1"), Ok("nvme0n1".to_string()));
    assert_eq!(device_name("/"), Err(StorageError::InvalidDeviceName("/".to_string())));
    assert_eq!(StorageDevice::sys_path("sda"), "/sys/block/sda");
}

#[test]
fn non_removable_non_loop_device_is_refused() {
    let r = StorageDevice::from_path("/dev/sda", false, Some("0\n"), false, Some(MOUNTS));
    assert_eq!(r.unwrap_err(), StorageError::UnsafeDevice("sda".to_string()));
}

#[test]
fn override_accepts_fixed_disk() {
    let d = StorageDevice::from_path("/dev/sda", true, Some("0\n"), false, Some(MOUNTS)).unwrap();
    assert_eq!(d.name(), "sda");
    assert!(!d.is_removable_device());
    assert!(!d.is_loop_device());
}

#[test]
fn unreadable_flag_is_an_error_even_with_override() {
    let r = StorageDevice::from_path("/dev/sda", true, None, true, Some(MOUNTS));
    assert_eq!(r.unwrap_err(), StorageError::AttributeRead("sda".to_string()));
}

#[test]
fn path_without_leaf_is_an_invalid_name() {
    let r = StorageDevice::from_path("/", true, Some("1\n"), false, Some(MOUNTS));
    assert_eq!(r.unwrap_err(), StorageError::InvalidDeviceName("/".to_string()));
}

#[test]
fn loop_device_validates_without_override() {
    let d = StorageDevice::from_path("/dev/loop0", false, Some("0\n"), true, Some(MOUNTS)).unwrap();
    assert_eq!(d.name(), "loop0");
    assert_eq!(d.path(), "/dev/loop0");
    assert!(d.is_loop_device());
    assert!(d.mount_config().is_empty());
}

#[test]
fn mounts_of_device_and_partitions_are_captured() {
    let d = StorageDevice::from_path("/dev/sda", false, Some("1\n"), false, Some(MOUNTS)).unwrap();
    let points: Vec<&str> = d.mount_config().iter().map(|m| m.mount_point.as_str()).collect();
    assert_eq!(points, vec!["/media/whole", "/media/first"]);
}

#[test]
fn mount_lines_with_carriage_returns_and_tabs() {
    let table = "/dev/sdb1\t/media/a\tvfat rw 0 0\r\n/dev/sdb2 /media/b\r\n/dev/sdb3\n";
    let d = StorageDevice::from_path("/dev/sdb", false, Some("1\n"), false, Some(table)).unwrap();
    let points: Vec<&str> = d.mount_config().iter().map(|m| m.mount_point.as_str()).collect();
    assert_eq!(points, vec!["/media/a", "/media/b"]);
}

#[test]
fn partition_names_follow_the_digit_rule() {
    let sda = StorageDevice::from_path("/dev/sda", false, Some("1\n"), false, Some("")).unwrap();
    assert_eq!(sda.partition_path(1), "/dev/sda1");
    assert_eq!(sda.partition_path(255), "/dev/sda255");
    let p = sda.get_partition(1, true).unwrap();
    assert_eq!(p.path(), "/dev/sda1");
    let nvme = StorageDevice::from_path("/dev/nvme0n1", false, Some("1\n"), false, Some("")).unwrap();
    assert_eq!(nvme.partition_path(1), "/dev/nvme0n1p1");
    assert_eq!(nvme.partition_path(10), "/dev/nvme0n1p10");
    assert_eq!(nvme.get_partition(1, true).unwrap().path(), "/dev/nvme0n1p1");
}

#[test]
fn missing_partition_node_is_an_error() {
    let sda = StorageDevice::from_path("/dev/sda", false, Some("1\n"), false, Some("")).unwrap();
    assert_eq!(sda.get_partition(3, false).unwrap_err(), StorageError::PartitionNotFound(3));
}

#[test]
fn taking_mounts_with_none_leaves_none() {
    let mut d = StorageDevice::from_path("/dev/sdc", false, Some("1\n"), false, Some(MOUNTS)).unwrap();
    assert!(d.mount_config().is_empty());
    assert!(d.take_mount_config().is_empty());
    assert!(d.mount_config().is_empty());
    assert_eq!(d.name(), "sdc");
}

#[test]
fn taking_mounts_empties_the_list_every_time() {
    let mut d = StorageDevice::from_path("/dev/sda", false, Some("1\n"), false, Some(MOUNTS)).unwrap();
    let taken = d.take_mount_config();
    assert_eq!(taken.len(), 2);
    assert!(d.mount_config().is_empty());
    assert!(d.take_mount_config().is_empty());
    assert!(d.mount_config().is_empty());
}

#[test]
fn unreadable_mount_table_fails_after_the_safety_gate() {
    let r = StorageDevice::from_path("/dev/sdb", false, Some("1\n"), false, None);
    assert_eq!(r.unwrap_err(), StorageError::MountTableRead);
    let r = StorageDevice::from_path("/dev/sda", false, Some("0\n"), false, None);
    assert_eq!(r.unwrap_err(), StorageError::UnsafeDevice("sda".to_string()));
}

#[test]
fn mount_match_is_a_plain_prefix() {
    let table = "/dev/sda-other /media/x ext4 rw 0 0\n/dev/sdb /media/y ext4 rw 0 0";
    let found: Vec<String> = mounts_for("/dev/sda", table).into_iter().map(|m| m.mount_point).collect();
    assert_eq!(found, vec!["/media/x".to_string()]);
    assert!(mounts_for("/dev/sda", "").is_empty());
}

#[test]
fn single_entry_decision() {
    let fixed = entry("sda", "0\n", "Disk", "ATA", "8");
    assert!(device_from_entry(false, &fixed).is_none());
    let d = device_from_entry(true, &fixed).unwrap();
    assert_eq!(d.name, "sda");
    assert_eq!(d.size(), 4096);
}
