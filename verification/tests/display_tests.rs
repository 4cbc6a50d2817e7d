use r1_panel::display::{
    choose_crtc, connector_type_name, connector_usable, drm_io, drm_iowr, find_drm_card,
    flip_completed, FlipChain, LinkRefresh,
};

#[test]
fn card1_is_preferred_over_card0() {
    assert_eq!(find_drm_card(true, true).as_deref(), Some("/dev/dri/card1"));
    assert_eq!(find_drm_card(false, true).as_deref(), Some("/dev/dri/card0"));
    assert_eq!(find_drm_card(false, false), None);
}

#[test]
fn connector_types_have_kernel_names() {
    assert_eq!(connector_type_name(16), "DSI");
    assert_eq!(connector_type_name(11), "HDMI-A");
    assert_eq!(connector_type_name(14), "eDP");
    assert_eq!(connector_type_name(8), "Unknown");
    assert_eq!(connector_type_name(99), "Unknown");
    assert!(connector_usable(1, 3));
    assert!(!connector_usable(1, 0));
    assert!(!connector_usable(2, 3));
}

#[test]
fn crtc_comes_from_the_encoder_or_the_card() {
    assert_eq!(choose_crtc(51, &vec![40, 41]), Some(51));
    assert_eq!(choose_crtc(0, &vec![40, 41]), Some(40));
    assert_eq!(choose_crtc(0, &vec![]), None);
}

#[test]
fn request_numbers_match_the_drm_headers() {
    assert_eq!(drm_io(0x1e), 0x641e);
    // DRM_IOCTL_MODE_GETRESOURCES and DRM_IOCTL_MODE_PAGE_FLIP.
    assert_eq!(drm_iowr(0xa0, 64), 0xC04064A0);
    assert_eq!(drm_iowr(0xb0, 24), 0xC01864B0);
}

#[test]
fn flip_events_are_found_in_whole_records() {
    let mut bytes = vec![2, 0, 0, 0, 32, 0, 0, 0];
    assert!(!flip_completed(&bytes));
    bytes.extend_from_slice(&[1, 0, 0, 0, 32, 0, 0, 0]);
    assert!(flip_completed(&bytes));
    assert!(!flip_completed(&[1, 0, 0, 0, 32, 0, 0]));
    assert!(!flip_completed(&[1, 1, 0, 0, 32, 0, 0, 0]));
}

#[test]
fn flips_swap_the_buffers() {
    let mut chain = FlipChain::new(7, 8);
    assert_eq!(chain.next_flip(), Some(8));
    chain.flip_queued();
    assert_eq!((chain.front, chain.back, chain.pending), (8, 7, true));
    assert_eq!(chain.next_flip(), None);
    chain.flip_done();
    assert_eq!(chain.next_flip(), Some(7));
}

#[test]
fn link_refresh_schedule() {
    let mut link = LinkRefresh::new(1_000);
    assert!(!link.light_due(20_000, false));
    assert!(link.light_due(20_000, true));
    assert!(!link.light_due(5_000, true));
    assert!(link.light_due(31_000, false));
    assert!(!link.deep_due(300_000));
    assert!(!link.deep_due(600_999));
    assert!(link.deep_due(601_000));
    link.light_done(31_500);
    assert!(!link.light_due(40_000, true));
    link.deep_done(601_200);
    assert!(!link.deep_due(900_000));
    assert!(link.deep_due(901_200));
    assert!(!link.light_due(610_000, false));
}
