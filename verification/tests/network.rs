use remote_screen::network::{
    cancelled, check_activation, check_connection_idle, check_device_idle, check_devices,
    connection_settings, is_active, is_display, is_p2p_device, judge_addresses,
    scan_seconds, select_tv, wfd_source_r2, Addresses, Discovery, NetworkError, Peer, Setting,
};

fn peer(name: &str, mac: &str) -> Peer {
    Peer {
        name: name.to_owned(),
        mac: mac.to_owned(),
        device: "/device".to_owned(),
        peer: "/peer".to_owned(),
    }
}

fn find<'a>(
    settings: &'a [(&'static str, &'static str, Setting)],
    section: &str,
    key: &str,
) -> Option<&'a Setting> {
    settings
        .iter()
        .find(|(s, k, _)| *s == section && *k == key)
        .map(|(_, _, value)| value)
}

#[test]
fn receiver_ie_roles_and_truncation() {
    let source = wfd_source_r2();
    assert!(!is_display(&source));
    for role in 1..=3 {
        let mut ie = wfd_source_r2();
        ie[4] |= role;
        assert!(is_display(&ie));
        for end in 0..9 {
            assert!(!is_display(&ie[..end]));
        }
    }
    assert!(!is_display(&[0, 0xff, 0xff]));
    assert!(is_display(&[7, 0, 1, 0, 0, 0, 6, 0, 1, 0, 0, 0, 0]));
}

#[test]
fn selection_requires_one_name_or_mac_match() {
    let one = peer("LG C9", "AA:BB:CC:DD:EE:FF");
    let peers = vec![one.copied()];
    assert_eq!(select_tv(&peers, "lg c9").unwrap().mac, one.mac);
    assert!(select_tv(&peers, "aa:bb:cc:dd:ee:ff").is_ok());
    assert!(select_tv(&peers, "absent").is_err());
    assert!(select_tv(&[one.copied(), one], "LG").is_err());
}

#[test]
fn settings_are_r2_source_and_preserve_default_route() {
    let settings = connection_settings("AA:BB:CC:DD:EE:FF", 1);
    assert_eq!(
        find(&settings, "wifi-p2p", "wfd-ies"),
        Some(&Setting::Bytes(wfd_source_r2()))
    );
    assert_eq!(
        find(&settings, "ipv4", "never-default"),
        Some(&Setting::Flag(true))
    );
    assert_eq!(
        find(&settings, "connection", "autoconnect"),
        Some(&Setting::Flag(false))
    );
    assert_eq!(
        find(&settings, "ipv4", "method"),
        Some(&Setting::Text("auto".to_owned()))
    );
    assert!(find(&settings, "ipv4", "address-data").is_none());
    assert_eq!(
        find(&settings, "ipv6", "method"),
        Some(&Setting::Text("auto".to_owned()))
    );
    assert_eq!(
        find(&settings, "ipv6", "never-default"),
        Some(&Setting::Flag(true))
    );
    assert_eq!(
        find(&settings, "ipv6", "may-fail"),
        Some(&Setting::Flag(true))
    );
}

#[test]
fn names_match_in_any_case_beyond_ascii() {
    let peers = [
        peer("FERNSEHER GRÜN", "AA:BB:CC:DD:EE:01"),
        peer("Other", "AA:BB:CC:DD:EE:02"),
    ];
    assert_eq!(
        select_tv(&peers, "grün").unwrap().mac,
        "AA:BB:CC:DD:EE:01"
    );
    let error = select_tv(&peers, "e").unwrap_err();
    assert_eq!(error, NetworkError::NotOneMatch(2));
    assert_eq!(
        error.text(),
        "Found 2 matching Miracast displays; use discover and --tv NAME_OR_MAC."
    );
}

#[test]
fn every_display_is_listed_once() {
    let mut found = Discovery::new();
    found.add(peer("a", "AA:BB:CC:DD:EE:01"));
    found.add(peer("b", "AA:BB:CC:DD:EE:02"));
    found.add(peer("c", "AA:BB:CC:DD:EE:01"));
    let list = found.listed();
    assert_eq!(list.len(), 2);
}

#[test]
fn connections_that_are_up_are_left_alone() {
    assert!(check_device_idle("/").is_ok());
    let error = check_device_idle("/org/connection/1").unwrap_err();
    assert!(error.text().contains("/org/connection/1"));
    assert!(check_connection_idle("/c", "wifi-p2p", 2).is_err());
    assert!(check_connection_idle("/c", "802-11-wireless", 2).is_ok());
}

#[test]
fn addresses_decide_when_a_connection_is_usable() {
    assert_eq!(judge_addresses(&[]), Addresses::Missing);
    assert_eq!(
        judge_addresses(&[Some("192.168.49.10".to_owned())]),
        Addresses::Local
    );
    assert_eq!(
        judge_addresses(&[Some("192.168.49.77".to_owned())]),
        Addresses::Foreign
    );
}

#[test]
fn activation_ends_in_time() {
    assert!(check_activation(1, 0, 10).is_ok());
    assert_eq!(
        check_activation(1, 10, 10).unwrap_err(),
        NetworkError::ActivationTimeout
    );
    assert_eq!(
        check_activation(4, 0, 10).unwrap_err(),
        NetworkError::ActivationFailed(4)
    );
    assert!(is_active(2));
    assert!(!is_active(1));
}

#[test]
fn devices_and_cancellation_are_checked() {
    assert!(is_p2p_device(30));
    assert!(!is_p2p_device(2));
    assert_eq!(check_devices(0).unwrap_err(), NetworkError::NoDevice);
    assert!(check_devices(1).is_ok());
    assert_eq!(
        cancelled(true).unwrap_err().text(),
        "Operation cancelled"
    );
    assert!(cancelled(false).is_ok());
    assert_eq!(scan_seconds(8), 8);
}
