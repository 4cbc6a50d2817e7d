use r1_panel::storage::{disk_mountpoints, mount_disk_map, parse_smart, BlockDevice};

#[test]
fn nvme_smart_report_gives_health_wear_hours_temperature() {
    let out = "SMART overall-health self-assessment test result: PASSED\n\
               Temperature:                        46 Celsius\n\
               Percentage Used:                    3%\n\
               Power On Hours:                     23,230\n";
    let r = parse_smart(out);
    assert_eq!(r.health.as_deref(), Some("PASSED"));
    assert_eq!(r.temperature.as_deref(), Some("46"));
    assert_eq!(r.percent_used.as_deref(), Some("3"));
    assert_eq!(r.power_on_hours.as_deref(), Some("23230"));
    assert_eq!(r.reallocated_sectors, None);
}

#[test]
fn ata_attributes_give_raw_values() {
    let out = "SMART overall-health self-assessment test result: FAILED!\n\
                 5 Reallocated_Sector_Ct   0x0033   200   200   140    Pre-fail  Always       -       8\n\
                 9 Power_On_Hours          0x0032   078   078   000    Old_age   Always       -       16402\n\
               194 Temperature_Celsius     0x0022   106   095   000    Old_age   Always       -       44 (0 11 0)\n";
    let r = parse_smart(out);
    assert_eq!(r.health.as_deref(), Some("FAILED"));
    assert_eq!(r.reallocated_sectors.as_deref(), Some("8"));
    assert_eq!(r.power_on_hours.as_deref(), Some("16402"));
    assert_eq!(r.temperature.as_deref(), Some("44"));
}

#[test]
fn values_that_are_not_numbers_are_ignored() {
    let out = "Temperature: 40 Celsius\nTemperature: n/a\nPercentage used: abc%\n";
    let r = parse_smart(out);
    assert_eq!(r.temperature.as_deref(), Some("40"));
    assert_eq!(r.percent_used, None);
    assert_eq!(r.health, None);
    let empty = parse_smart("");
    assert_eq!(empty.health, None);
}

fn device(name: &str, kind: &str, mount: Option<&str>, children: Vec<BlockDevice>) -> BlockDevice {
    BlockDevice {
        name: name.to_string(),
        device_type: kind.to_string(),
        mountpoint: mount.map(|m| m.to_string()),
        children,
    }
}

#[test]
fn mountpoints_are_found_on_their_disks() {
    let tree = vec![
        device(
            "mmcblk0",
            "disk",
            None,
            vec![
                device("mmcblk0p1", "part", Some("/boot/efi"), vec![]),
                device("mmcblk0p2", "part", Some("/"), vec![]),
            ],
        ),
        device(
            "sda",
            "disk",
            None,
            vec![device(
                "sda1",
                "part",
                None,
                vec![device("md0", "raid1", Some("/srv/data"), vec![])],
            )],
        ),
        device(
            "sdb",
            "disk",
            None,
            vec![device(
                "sdb1",
                "part",
                None,
                vec![device("md0", "raid1", Some("/srv/data"), vec![])],
            )],
        ),
        device("loop0", "loop", Some("/snap/core"), vec![]),
    ];
    let map = mount_disk_map(&tree);
    assert_eq!(map.len(), 3);
    assert_eq!(map[0].mount, "/boot/efi");
    assert_eq!(map[2].mount, "/srv/data");
    assert_eq!(map[2].disks, vec!["sda".to_string(), "sdb".to_string()]);
    assert_eq!(disk_mountpoints(&map, "mmcblk0"), vec!["/".to_string(), "/boot/efi".to_string()]);
    assert_eq!(disk_mountpoints(&map, "sdb"), vec!["/srv/data".to_string()]);
    assert_eq!(disk_mountpoints(&map, "loop0"), Vec::<String>::new());
}
