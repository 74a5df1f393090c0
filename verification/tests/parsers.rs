use statusbar::net::{network_fragment, parse_route_device, parse_wireless_interfaces};
use statusbar::volume::{is_sink_event, parse_mute, parse_volume};

#[test]
fn route_device_after_dev_token() {
    let out = b"8.8.8.8 via 192.168.1.1 dev wlan0 src 192.168.1.5 uid 1000\n";
    assert_eq!(parse_route_device(out), Some(b"wlan0".to_vec()));
}

#[test]
fn route_device_takes_leftmost_match() {
    let out = b"dev eth0 dev wlan0 ";
    assert_eq!(parse_route_device(out), Some(b"eth0".to_vec()));
}

#[test]
fn route_device_needs_trailing_space() {
    // The name must be followed by a space, as in the query's real output.
    assert_eq!(parse_route_device(b"dev eth0"), None);
    assert_eq!(parse_route_device(b"dev eth0 "), Some(b"eth0".to_vec()));
}

#[test]
fn route_device_skips_false_starts() {
    // "dev " followed by another space matches nothing there, but a later
    // occurrence still counts.
    let out = b"dev  gap dev wlan1 x";
    assert_eq!(parse_route_device(out), Some(b"wlan1".to_vec()));
}

#[test]
fn route_device_absent() {
    assert_eq!(parse_route_device(b""), None);
    assert_eq!(parse_route_device(b"no route to host\n"), None);
}

#[test]
fn wireless_listing_names() {
    let listing = b"Inter-| sta-|   Quality        |   Discarded packets\n face | tus | link level noise |  nwid  crypt   frag\n wlan0: 0000   54.  -256.  -256.        0      0      0\nwlp3s0: 0000   70.  -30.   -256.        0      0      0\n";
    let names = parse_wireless_interfaces(listing);
    // Only lines opening with a name and a colon count; " wlan0:" starts
    // with a space, so it does not.
    assert_eq!(names, vec![b"wlp3s0".to_vec()]);
}

#[test]
fn wireless_listing_name_at_line_start() {
    let listing = b"wlan0: 0000   54.\neth0 no colon\n";
    let names = parse_wireless_interfaces(listing);
    assert_eq!(names, vec![b"wlan0".to_vec()]);
}

#[test]
fn wireless_listing_handles_cr_and_missing_final_newline() {
    let listing = b"wlan0: x\r\nwlan1: y";
    let names = parse_wireless_interfaces(listing);
    assert_eq!(names, vec![b"wlan0".to_vec(), b"wlan1".to_vec()]);
}

#[test]
fn wireless_listing_empty() {
    assert_eq!(parse_wireless_interfaces(b""), Vec::<Vec<u8>>::new());
}

#[test]
fn network_glyph_wireless_then_wired() {
    let wifs = vec![b"wlan0".to_vec()];
    let wireless = network_fragment(&Some(b"wlan0".to_vec()), &wifs);
    assert_eq!(wireless, "\u{1F4E1} \u{2E31} ");
    let wired = network_fragment(&Some(b"eth0".to_vec()), &wifs);
    assert_eq!(wired, "\u{21C5} \u{2E31} ");
}

#[test]
fn network_glyph_absent_route() {
    let wifs = vec![b"wlan0".to_vec()];
    assert_eq!(network_fragment(&None, &wifs), "");
}

#[test]
fn mute_query_output() {
    assert!(parse_mute(b"true\n"));
    assert!(parse_mute(b"  true  "));
    assert!(!parse_mute(b"false\n"));
    assert!(!parse_mute(b"truex"));
    assert!(!parse_mute(b""));
}

#[test]
fn volume_query_output() {
    assert_eq!(parse_volume(b"42\n"), Some(42));
    assert_eq!(parse_volume(b" 100 "), Some(100));
    assert_eq!(parse_volume(b"0"), Some(0));
    assert_eq!(parse_volume(b"-5"), Some(-5));
    assert_eq!(parse_volume(b"+7"), Some(7));
}

#[test]
fn volume_query_output_malformed() {
    assert_eq!(parse_volume(b""), None);
    assert_eq!(parse_volume(b"-"), None);
    assert_eq!(parse_volume(b"12a"), None);
    assert_eq!(parse_volume(b"1 2"), None);
    assert_eq!(parse_volume(b"muted"), None);
}

#[test]
fn volume_query_output_range() {
    assert_eq!(parse_volume(b"2147483647"), Some(i32::MAX));
    assert_eq!(parse_volume(b"2147483648"), None);
    assert_eq!(parse_volume(b"-2147483648"), Some(i32::MIN));
    assert_eq!(parse_volume(b"-2147483649"), None);
    assert_eq!(parse_volume(b"99999999999999999999"), None);
}

#[test]
fn sink_event_lines_trigger_resample() {
    assert!(is_sink_event(b"Event 'change' on sink #43"));
    assert!(!is_sink_event(b"Event 'change' on source #1"));
    assert!(!is_sink_event(b"on sin"));
    assert!(!is_sink_event(b""));
    assert!(is_sink_event(b"on sink"));
}
