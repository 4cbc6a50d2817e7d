use r1_panel::metrics::{
    base_disk_name, classify_disk, cpu_time_fields, disk_inventory, emmc_health,
    emmc_life_range, emmc_model, gpu_from, hostname_from, link_is_up, memory_kb, read_docker,
    read_iface_ips, read_meminfo, read_net_dev, read_services, read_vms, service_status,
    uptime_from_seconds,
};

#[test]
fn extracts_base_disk_from_linux_device_names() {
    assert_eq!(base_disk_name("/dev/mmcblk0p2"), "mmcblk0");
    assert_eq!(base_disk_name("/dev/nvme0n1p3"), "nvme0n1");
    assert_eq!(base_disk_name("/dev/sda1"), "sda");
    assert_eq!(base_disk_name("/dev/mmcblk0"), "mmcblk0");
    assert_eq!(base_disk_name("/dev/nvme1n1"), "nvme1n1");
}

#[test]
fn disks_are_classified_against_the_system_disk() {
    assert_eq!(classify_disk("mmcblk0", "mmcblk0"), ("system", "emmc".to_string()));
    assert_eq!(classify_disk("sda", "sda"), ("system", "disk".to_string()));
    assert_eq!(classify_disk("nvme0n1", "mmcblk0"), ("ssd", "nvme".to_string()));
    assert_eq!(classify_disk("sdb", "mmcblk0"), ("hdd", "disk".to_string()));
    assert_eq!(classify_disk("mmcblk1", "sda"), ("other", "emmc".to_string()));
    assert_eq!(classify_disk("vda", ""), ("other", "disk".to_string()));
}

#[test]
fn disk_inventory_skips_partitions_and_orders_by_role() {
    let listing = "sda      3.6T disk WDC WD40EFRX-68N\n\
                   mmcblk0boot0 4M disk\n\
                   mmcblk0rpmb 4M disk\n\
                   sr0 1024M rom DVD\n\
                   nvme0n1 476.9G disk Samsung SSD 980\n\
                   mmcblk0 58.2G disk\n";
    let disks = disk_inventory(listing, "/dev/mmcblk0p2\n");
    let names: Vec<&str> = disks.iter().map(|d| d.name.as_str()).collect();
    assert_eq!(names, vec!["mmcblk0", "nvme0n1", "sda"]);
    assert_eq!(disks[0].role, "system");
    assert_eq!(disks[0].disk_type, "emmc");
    assert_eq!(disks[0].model, "mmcblk0");
    assert_eq!(disks[1].model, "Samsung SSD 980");
    assert_eq!(disks[1].size, "476.9G");
    assert_eq!(disks[2].role, "hdd");
    assert_eq!(disks[2].model, "WDC WD40EFRX-68N");
}

#[test]
fn docker_rows_need_a_name_and_a_state() {
    let rows = read_docker("web\trunning\ndb\texited\tx\nbroken\n");
    assert_eq!(rows.len(), 2);
    assert_eq!((rows[0].names.as_str(), rows[0].state.as_str()), ("web", "running"));
    assert_eq!((rows[1].names.as_str(), rows[1].state.as_str()), ("db", "exited"));
}

#[test]
fn virsh_listing_skips_its_header() {
    let out = " Id   Name     State\n----------------------\n 1    debian   running\n -    win11    shut off\n\n";
    let vms = read_vms(out);
    assert_eq!(vms.len(), 2);
    assert_eq!((vms[0].id.as_str(), vms[0].name.as_str(), vms[0].state.as_str()), ("1", "debian", "running"));
    assert_eq!(vms[1].state, "shut off");
}

#[test]
fn services_are_named_without_suffix() {
    let answers: Vec<String> =
        ["active\n", "inactive", " active ", "failed", "activating"].iter().map(|s| s.to_string()).collect();
    let services = read_services(&answers);
    let names: Vec<&str> = services.iter().map(|s| s.name.as_str()).collect();
    assert_eq!(names, vec!["docker", "libvirtd", "containerd", "NetworkManager", "cron"]);
    let active: Vec<bool> = services.iter().map(|s| s.active).collect();
    assert_eq!(active, vec![true, false, true, false, false]);
    assert_eq!(service_status("a.service.service", "active").name, "a");
}

#[test]
fn interface_addresses_come_from_inet_lines() {
    let out = "2: enp1s0    inet 192.168.1.20/24 brd 192.168.1.255 scope global enp1s0\n\
               2: enp1s0    inet 10.0.0.5 scope global\n\
               3: wlan0    inet6 fe80::1/64\n";
    assert_eq!(read_iface_ips(out), vec!["192.168.1.20".to_string(), "10.0.0.5".to_string()]);
}

#[test]
fn uptime_splits_into_days_hours_minutes() {
    let u = uptime_from_seconds(90061);
    assert_eq!((u.days, u.hours, u.minutes), (1, 1, 1));
    let u = uptime_from_seconds(59);
    assert_eq!((u.days, u.hours, u.minutes), (0, 0, 0));
}

#[test]
fn hostname_and_link_state_from_files() {
    assert_eq!(hostname_from(Some(" r1-nas \n")), "r1-nas");
    assert_eq!(hostname_from(None), "nas");
    assert!(link_is_up(Some("up\n")));
    assert!(!link_is_up(Some("down\n")));
    assert!(!link_is_up(None));
    assert_eq!(gpu_from(Some("350\n")).freq_mhz, Some(350));
    assert_eq!(gpu_from(Some("n/a")).freq_mhz, None);
    assert_eq!(gpu_from(None).freq_mhz, None);
}

#[test]
fn memory_uses_available_or_free_buffers_cached() {
    let entries = read_meminfo(
        "MemTotal:       16000000 kB\nMemFree:         1000000 kB\nMemAvailable:    6000000 kB\nBuffers: 100 kB\nCached: 200 kB\nbroken line\n",
    );
    assert_eq!(entries.len(), 5);
    assert_eq!(memory_kb(&entries), (16000000, 10000000));
    let old_kernel = read_meminfo("MemTotal: 1000 kB\nMemFree: 100 kB\nBuffers: 50 kB\nCached: 250 kB\n");
    assert_eq!(memory_kb(&old_kernel), (1000, 600));
    assert_eq!(memory_kb(&read_meminfo("")), (0, 0));
}

#[test]
fn net_dev_counters_are_receive_and_transmit_bytes() {
    let data = "Inter-|   Receive                            |  Transmit\n \
 face |bytes    packets errs drop fifo frame compressed multicast|bytes    packets\n    \
lo: 1000 10 0 0 0 0 0 0 2000 20 0 0 0 0 0 0\n  \
enp1s0: 123456 100 0 0 0 0 0 0 654321 90 0 0 0 0 0 0\n";
    let counters = read_net_dev(data);
    assert_eq!(counters.len(), 2);
    assert_eq!(counters[0], ("lo".to_string(), 1000, 2000));
    assert_eq!(counters[1], ("enp1s0".to_string(), 123456, 654321));
}

#[test]
fn emmc_life_and_health_follow_ext_csd() {
    assert_eq!(emmc_life_range("0x01 0x02\n"), Some((20, 30)));
    assert_eq!(emmc_life_range("0x00 0x00"), Some((0, 10)));
    assert_eq!(emmc_life_range("0x0B 0x01"), Some((110, 120)));
    assert_eq!(emmc_life_range("0x0C 0x01"), None);
    assert_eq!(emmc_life_range("junk"), Some((0, 10)));
    assert_eq!(emmc_health("0x01\n", None), Some("PASSED".to_string()));
    assert_eq!(emmc_health("0x2", None), Some("WARNING".to_string()));
    assert_eq!(emmc_health("0x03", None), Some("FAILED".to_string()));
    assert_eq!(emmc_health("0x00", Some("PASSED".to_string())), Some("PASSED".to_string()));
    assert_eq!(emmc_health("0x00", None), None);
    assert_eq!(emmc_model("mmcblk0", "mmcblk0", Some("Y0S256\n")), "Y0S256");
    assert_eq!(emmc_model("mmcblk0", "mmcblk0", Some("  ")), "mmcblk0");
    assert_eq!(emmc_model("Samsung", "mmcblk0", Some("Y0S256")), "Samsung");
}

#[test]
fn cpu_line_fields_are_its_numbers() {
    let stat = "intr 1 2\ncpu  100 5 50 1000 20 0 3 0 0 0\ncpu0 50 2 25 500 10 0 1 0 0 0\n";
    let fields = cpu_time_fields(stat).unwrap();
    assert_eq!(fields, vec!["100", "5", "50", "1000", "20", "0", "3", "0", "0", "0"]);
    assert_eq!(cpu_time_fields("cpu0 1 2\n"), None);
    assert_eq!(cpu_time_fields("cpu  1 x 2.5"), Some(vec!["1".to_string(), "2.5".to_string()]));
}
