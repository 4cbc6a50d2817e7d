use r1_panel::interaction::{
    apply_scroll, clamp_scrolls, loop_period_ms, overlay_for_name, page_for_name, power_command,
    record_render, redraw_plan, swipe_pages, swipe_target_x, tap_outcome, Redraw,
};
use r1_panel::view::{
    content_height, disk_badge, disk_title, fit_length, health_badge, hit_test, inside,
    is_running, max_scroll, overlay_lines, page_dot, pick_net, service_layout, storage_height,
    visible, vms_block_height, HitTarget, NetworkLink, Overlay, Page, PageContent, PowerAction,
    BLUE, GREEN, ORANGE, RED, SERVICES_Y, YELLOW,
};

fn content(disks: &[bool], services: usize, docker: usize, vms: usize) -> PageContent {
    PageContent { disk_has_usage: disks.to_vec(), services, docker, vms }
}

#[test]
fn pages_wrap_in_both_directions() {
    assert_eq!(Page::Overview.shifted(1), Page::Services);
    assert_eq!(Page::Services.shifted(1), Page::Vms);
    assert_eq!(Page::Vms.shifted(1), Page::Power);
    assert_eq!(Page::Power.shifted(1), Page::Overview);
    assert_eq!(Page::Overview.shifted(-1), Page::Power);
    assert_eq!(Page::Services.shifted(-1), Page::Overview);
    assert_eq!(Page::Power.shifted(0), Page::Power);
}

#[test]
fn modal_buttons_are_the_only_confirm_targets() {
    let data = PageContent::default();
    let overlay = Overlay::Confirm(PowerAction::Reboot);
    assert_eq!(
        hit_test(&data, Page::Power, 0, overlay, 262, 540),
        Some(HitTarget::Confirm(PowerAction::Reboot))
    );
    assert_eq!(hit_test(&data, Page::Power, 0, overlay, 114, 540), Some(HitTarget::Cancel));
    assert_eq!(hit_test(&data, Page::Power, 0, overlay, 188, 450), None);
}

#[test]
fn power_buttons_match_master_layout() {
    let data = PageContent::default();
    let power_y = SERVICES_Y;
    assert_eq!(
        hit_test(&data, Page::Power, 0, Overlay::Hidden, 188, power_y + 90),
        Some(HitTarget::Reboot)
    );
    assert_eq!(
        hit_test(&data, Page::Power, 0, Overlay::Hidden, 188, power_y + 210),
        Some(HitTarget::Shutdown)
    );
    assert_eq!(hit_test(&data, Page::Vms, 0, Overlay::Hidden, 188, power_y + 90), None);
}

#[test]
fn pages_wrap_by_several_steps() {
    assert_eq!(Page::Vms.shifted(5), Page::Power);
    assert_eq!(Page::Overview.shifted(-6), Page::Vms);
    assert_eq!(Page::Power.shifted(4), Page::Power);
    assert_eq!(Page::Services.index(), 1);
}

#[test]
fn executing_overlay_blocks_every_tap() {
    let data = PageContent::default();
    let overlay = Overlay::Executing(PowerAction::Shutdown);
    assert_eq!(hit_test(&data, Page::Power, 0, overlay, 262, 540), None);
    assert_eq!(hit_test(&data, Page::Power, 0, overlay, 188, SERVICES_Y + 90), None);
}

#[test]
fn power_buttons_follow_the_scroll_offset() {
    let data = PageContent::default();
    assert_eq!(
        hit_test(&data, Page::Power, 100, Overlay::Hidden, 188, SERVICES_Y + 90),
        Some(HitTarget::Shutdown)
    );
    assert_eq!(
        hit_test(&data, Page::Power, 100, Overlay::Hidden, 188, SERVICES_Y + 90 - 100),
        Some(HitTarget::Reboot)
    );
    assert_eq!(hit_test(&data, Page::Power, 300, Overlay::Hidden, 188, SERVICES_Y + 90), None);
}

#[test]
fn layout_heights_follow_the_content() {
    let two = content(&[true, false], 5, 3, 0);
    assert_eq!(storage_height(&two), 80 + 182 + 130);
    assert_eq!(content_height(&two, Page::Overview), 960);
    assert_eq!(max_scroll(&two, Page::Overview, 960), 0);
    let three = content(&[true, true, false], 5, 10, 0);
    assert_eq!(max_scroll(&three, Page::Overview, 960), 182);
    assert_eq!(service_layout(&three), (92, 506));
    assert_eq!(content_height(&three, Page::Services), 1586);
    assert_eq!(max_scroll(&three, Page::Services, 960), 626);
    assert_eq!(vms_block_height(&three), 173);
    assert_eq!(content_height(&three, Page::Vms), 335);
    assert_eq!(content_height(&three, Page::Power), 456);
}

#[test]
fn rectangles_include_their_top_left_only() {
    assert!(inside(10, 10, 10, 10, 5, 5));
    assert!(!inside(15, 10, 10, 10, 5, 5));
    assert!(!inside(10, 15, 10, 10, 5, 5));
    assert!(visible(960, -10, 20));
    assert!(!visible(960, 960, 20));
    assert!(!visible(960, -20, 20));
}

fn link(name: &str, up: bool, rx: i64, tx: i64, ip: bool) -> NetworkLink {
    NetworkLink {
        name: name.to_string(),
        is_up: up,
        rx_bytes: rx,
        tx_bytes: tx,
        ipv4: if ip { vec!["192.168.1.2".to_string()] } else { Vec::new() },
    }
}

#[test]
fn network_card_shows_the_busiest_real_interface() {
    let nets = vec![
        link("lo", true, 900, 900, true),
        link("enp1s0", true, 100, 50, true),
        link("vnet0", true, 5000, 0, true),
        link("ovs-system", true, 5000, 0, true),
        link("enp2s0", true, 120, 30, true),
        link("wlan0", false, 9999, 0, true),
        link("eth9", true, 9999, 0, false),
    ];
    assert_eq!(pick_net(&nets), Some(4));
    assert_eq!(pick_net(&vec![link("lo", true, 1, 1, true)]), None);
}

#[test]
fn scrolling_stays_within_the_page() {
    let data = content(&[true, true, false], 0, 0, 0);
    let mut scroll = [0i32; 4];
    assert!(apply_scroll(&mut scroll, &data, Page::Overview, 960, 100));
    assert_eq!(scroll, [100, 0, 0, 0]);
    assert!(apply_scroll(&mut scroll, &data, Page::Overview, 960, 1000));
    assert_eq!(scroll[0], 182);
    assert!(!apply_scroll(&mut scroll, &data, Page::Overview, 960, 5));
    assert!(apply_scroll(&mut scroll, &data, Page::Overview, 960, -500));
    assert_eq!(scroll[0], 0);
    assert!(!apply_scroll(&mut scroll, &data, Page::Power, 960, 50));
}

#[test]
fn scroll_offsets_shrink_with_the_content() {
    let mut scroll = [500, 300, 20, 0];
    clamp_scrolls(&mut scroll, &content(&[true, true, false], 5, 10, 0), 960);
    assert_eq!(scroll, [182, 300, 0, 0]);
}

#[test]
fn taps_open_confirm_and_run_actions() {
    assert_eq!(tap_outcome(HitTarget::Reboot), (Overlay::Confirm(PowerAction::Reboot), None));
    assert_eq!(
        tap_outcome(HitTarget::Shutdown),
        (Overlay::Confirm(PowerAction::Shutdown), None)
    );
    assert_eq!(tap_outcome(HitTarget::Cancel), (Overlay::Hidden, None));
    assert_eq!(
        tap_outcome(HitTarget::Confirm(PowerAction::Shutdown)),
        (Overlay::Executing(PowerAction::Shutdown), Some(PowerAction::Shutdown))
    );
    assert_eq!(power_command(PowerAction::Reboot), "reboot");
    assert_eq!(power_command(PowerAction::Shutdown), "poweroff");
}

#[test]
fn released_swipes_animate_off_screen_or_back() {
    assert_eq!(swipe_target_x(0, -150, 376), 0);
    assert_eq!(swipe_target_x(1, -150, 376), -376);
    assert_eq!(swipe_target_x(-1, 150, 376), 376);
}

#[test]
fn screenshot_names_select_page_and_modal() {
    assert_eq!(page_for_name(Some("services")), Page::Services);
    assert_eq!(page_for_name(Some("vms")), Page::Vms);
    assert_eq!(page_for_name(Some("power")), Page::Power);
    assert_eq!(page_for_name(Some("other")), Page::Overview);
    assert_eq!(page_for_name(None), Page::Overview);
    assert_eq!(overlay_for_name(Some("reboot")), Overlay::Confirm(PowerAction::Reboot));
    assert_eq!(overlay_for_name(Some("shutdown")), Overlay::Confirm(PowerAction::Shutdown));
    assert_eq!(overlay_for_name(Some("x")), Overlay::Hidden);
}

#[test]
fn render_statistics_accumulate() {
    let (mut frames, mut total, mut max) = (0u32, 0u128, 0u128);
    record_render(5_000_000, &mut frames, &mut total, &mut max);
    record_render(3_000_000, &mut frames, &mut total, &mut max);
    assert_eq!((frames, total, max), (2, 8_000_000, 5_000_000));
}

#[test]
fn disk_rows_get_kind_and_health_badges() {
    assert_eq!(disk_badge("emmc", "system"), ("eMMC", 0x001A2A3A, BLUE));
    assert_eq!(disk_badge("disk", "ssd"), ("SSD", 0x001A3A2A, GREEN));
    assert_eq!(disk_badge("nvme", "other"), ("SSD", 0x001A3A2A, GREEN));
    assert_eq!(disk_badge("disk", "hdd"), ("HDD", 0x003A2A1A, ORANGE));
    assert_eq!(disk_badge("disk", "other"), ("DISK", 0x001A3A2A, GREEN));
    assert_eq!(health_badge("PASSED"), ("正常", 0x0014331C, GREEN));
    assert_eq!(health_badge("passed"), ("正常", 0x0014331C, GREEN));
    assert_eq!(health_badge("Warning"), ("注意", 0x003A3417, YELLOW));
    assert_eq!(health_badge("FAILED"), ("告警", 0x003A1717, RED));
    assert_eq!(health_badge("PASSED "), ("告警", 0x003A1717, RED));
    assert_eq!(disk_title("  ", "sda"), "sda");
    assert_eq!(disk_title("WDC", "sda"), "WDC");
}

#[test]
fn running_state_ignores_ascii_case() {
    assert!(is_running("running"));
    assert!(is_running("RUNNING"));
    assert!(!is_running("exited"));
    assert!(!is_running("running "));
}

#[test]
fn dialog_text_and_page_dots() {
    assert_eq!(
        overlay_lines(Overlay::Confirm(PowerAction::Reboot)),
        Some(("确定重启 NAS?", "服务将暂时中断。"))
    );
    assert_eq!(overlay_lines(Overlay::Executing(PowerAction::Shutdown)), Some(("关机中...", "")));
    assert_eq!(overlay_lines(Overlay::Hidden), None);
    assert_eq!(page_dot(0, Page::Vms), (146, 12, false));
    assert_eq!(page_dot(2, Page::Vms), (182, 30, true));
}

#[test]
fn long_text_is_cut_before_an_ellipsis() {
    // Widths of "a", "ab", "abc", "abcd" with an ellipsis of width 3.
    let widths = vec![5, 10, 15, 20];
    assert_eq!(fit_length(20, &widths, 3, 20), None);
    assert_eq!(fit_length(20, &widths, 3, 14), Some(2));
    assert_eq!(fit_length(20, &widths, 3, 4), Some(0));
}

#[test]
fn idle_loop_repaints_what_changed() {
    assert_eq!(redraw_plan(true, true, true, Overlay::Hidden), Redraw::Nothing);
    assert_eq!(redraw_plan(false, true, true, Overlay::Hidden), Redraw::Full);
    assert_eq!(
        redraw_plan(false, true, false, Overlay::Confirm(PowerAction::Reboot)),
        Redraw::Full
    );
    assert_eq!(redraw_plan(false, false, true, Overlay::Hidden), Redraw::Dynamic);
    assert_eq!(
        redraw_plan(false, false, true, Overlay::Confirm(PowerAction::Reboot)),
        Redraw::Nothing
    );
    assert_eq!(loop_period_ms(true), 18);
    assert_eq!(loop_period_ms(false), 8);
}

#[test]
fn drags_slide_in_the_neighbouring_page() {
    assert_eq!(swipe_pages(Page::Overview, 0, 376), None);
    assert_eq!(swipe_pages(Page::Overview, -100, 376), Some((-100, Page::Services, 276)));
    assert_eq!(swipe_pages(Page::Overview, 100, 376), Some((100, Page::Power, -276)));
    assert_eq!(swipe_pages(Page::Vms, -900, 376), Some((-376, Page::Power, 0)));
}
