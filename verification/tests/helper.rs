use remote_screen::credentials::{
    check_directory, check_file, file_name, mac, match_pairing, matches_peer, network_name,
    read_pairing, restore_properties, same_ssid, ssid_bytes, temporary_name, write_address,
    write_pairing, CredentialError, FileFacts, Property,
};
use remote_screen::fields::Fields;
use remote_screen::helper::{
    check_configurable, check_deadline, check_line, check_root, choose_group, choose_newest,
    group_number, validate, verified_ip, GroupInfo, HelperError, Operation, Request,
};

fn fields(pairs: &[(&str, &str)]) -> Fields {
    Fields::from_pairs(
        pairs
            .iter()
            .map(|(k, v)| (k.to_string(), v.to_string()))
            .collect(),
    )
}

fn get<'a>(values: &'a [(&'static str, Property)], key: &str) -> Option<&'a Property> {
    values.iter().find(|(k, _)| *k == key).map(|(_, v)| v)
}

fn asked(timeout_secs: u64) -> Request {
    Request {
        peer: "aa:bb:cc:dd:ee:00".to_owned(),
        timeout_secs,
        allow_pairing: true,
        operation: Operation::Connect,
    }
}

fn bytes(s: &str) -> Property {
    Property::Bytes(s.as_bytes().to_vec())
}

fn words(s: &str) -> Property {
    Property::Text(s.to_owned())
}

#[test]
fn rejects_paths_and_multicast() {
    for p in [
        "../../root",
        "ff:ff:ff:ff:ff:ff",
        "00:00:00:00:00:00",
        "a0:00:00:00:00:0z",
    ] {
        assert!(mac(p).is_err());
    }
    assert_eq!(mac("AA:BB:CC:DD:EE:00").unwrap(), "aa:bb:cc:dd:ee:00");
}

#[test]
fn request_is_bounded_and_errors_are_secret_free() {
    assert!(validate(asked(600)).is_ok());
    assert!(validate(asked(601)).is_err());
    let mut secret = asked(600);
    secret.peer = "secret".to_owned();
    let error = validate(secret).unwrap_err();
    assert_eq!(error.text(), "invalid peer MAC");
    assert!(!error.text().contains("secret"));
}

#[test]
fn chooses_saved_ssid_then_newest_numeric_group() {
    let props = |ssid: &str| fields(&[("bssid", "aa:bb:cc:dd:ee:00"), ("ssid", ssid)]);
    let groups = vec![
        ("/groups/2".to_owned(), props("\"old\"")),
        ("/groups/10".to_owned(), props("\"new\"")),
    ];
    assert_eq!(choose_group(&groups, &None), Some(1));
    assert_eq!(choose_group(&groups, &Some(props("6f6c64"))), Some(0));
    assert_eq!(ssid_bytes("6e6577"), Some(b"new".to_vec()));
    assert_eq!(ssid_bytes("x"), None);
}

#[test]
fn requires_exact_negotiated_address_and_mask() {
    let mut info = GroupInfo {
        interface: None,
        role: None,
        group: None,
        owner_address: Some(vec![192, 168, 49, 1]),
        local_address: Some(vec![192, 168, 49, 10]),
        mask: Some(vec![255, 255, 255, 0]),
    };
    assert!(verified_ip(&info));
    info.local_address = None;
    assert!(!verified_ip(&info));
    info.local_address = Some(vec![192, 168, 49, 11]);
    assert!(!verified_ip(&info));
}

#[test]
fn restore_uses_dbus_types_not_config_file_strings() {
    let all = [
        ("ssid", "\"DIRECT-test\""),
        ("psk", "\"test-passphrase\""),
        ("bssid", "aa:bb:cc:dd:ee:00"),
        ("mode", "0"),
        ("disabled", "2"),
        ("key_mgmt", "WPA-PSK"),
        ("ieee80211w", "1"),
        ("unrelated_default", "0"),
    ];
    let props = fields(&all);
    let values = restore_properties(&props).unwrap();
    assert_eq!(get(&values, "ssid"), Some(&bytes("DIRECT-test")));
    assert_eq!(get(&values, "psk"), Some(&words("test-passphrase")));
    assert_eq!(get(&values, "mode"), Some(&Property::Number(0)));
    assert_eq!(get(&values, "disabled"), Some(&Property::Number(2)));
    assert_eq!(get(&values, "ieee80211w"), Some(&Property::Number(1)));
    assert_eq!(get(&values, "key_mgmt"), Some(&words("WPA-PSK")));
    assert!(get(&values, "unrelated_default").is_none());
    let mut defaults = props.copied();
    defaults.set("ieee80211w".to_owned(), "3".to_owned());
    assert!(get(&restore_properties(&defaults).unwrap(), "ieee80211w").is_none());
    let mut raw = props.copied();
    raw.set("ssid".to_owned(), "4449524543542d74657374".to_owned());
    raw.set("psk".to_owned(), "ab".repeat(32));
    let restored = restore_properties(&raw).unwrap();
    assert_eq!(get(&restored, "ssid"), get(&values, "ssid"));
    assert_eq!(
        get(&restored, "psk"),
        Some(&Property::Bytes(vec![0xabu8; 32]))
    );
    raw.set("psk".to_owned(), "bad".to_owned());
    assert_eq!(
        restore_properties(&raw).err().map(|e| e.text()),
        Some("saved pairing has invalid raw key")
    );
}

#[test]
fn incomplete_pairings_are_not_restored() {
    let full = [
        ("ssid", "\"DIRECT-test\""),
        ("psk", "\"test-passphrase\""),
        ("bssid", "aa:bb:cc:dd:ee:00"),
        ("mode", "0"),
        ("disabled", "2"),
    ];
    let without = |key: &str| {
        let left: Vec<(&str, &str)> = full.iter().copied().filter(|(k, _)| *k != key).collect();
        restore_properties(&fields(&left)).err()
    };
    let with = |key: &str, value: &str| {
        let mut props = fields(&full);
        props.set(key.to_owned(), value.to_owned());
        restore_properties(&props).err()
    };
    assert!(restore_properties(&fields(&full)).is_ok());
    assert_eq!(without("ssid"), Some(CredentialError::InvalidSsid));
    assert_eq!(without("bssid"), Some(CredentialError::NoPeer));
    assert_eq!(without("psk"), Some(CredentialError::NoKey));
    assert_eq!(with("mode", "3"), Some(CredentialError::NotAClient));
    assert_eq!(
        with("psk", "\"short\""),
        Some(CredentialError::InvalidPassphrase)
    );
    assert_eq!(
        with("ieee80211w", "7"),
        Some(CredentialError::InvalidPolicy)
    );
}

#[test]
fn saved_pairings_read_back() {
    let props = fields(&[("bssid", "aa:bb:cc:dd:ee:00"), ("psk", "test-only \"\n")]);
    let written = write_pairing(&props).unwrap();
    let read = read_pairing(&written, "aa:bb:cc:dd:ee:00").unwrap();
    assert_eq!(read.get("psk"), Some("test-only \"\n"));
    assert_eq!(read.to_pairs().len(), 2);
    assert_eq!(
        read_pairing(&written, "aa:bb:cc:dd:ee:02").err(),
        Some(CredentialError::OtherPeer)
    );
    assert_eq!(
        read_pairing(b"[]", "aa:bb:cc:dd:ee:00").err(),
        Some(CredentialError::InvalidFile)
    );
    assert!(match_pairing(props, "aa:bb:cc:dd:ee:00").is_ok());
}

#[test]
fn files_are_named_after_the_display_and_private() {
    assert_eq!(file_name("AA:BB:CC:DD:EE:00").unwrap(), "aabbccddee00.json");
    assert_eq!(
        temporary_name("aa:bb:cc:dd:ee:00", 7).unwrap(),
        ".aabbccddee00.7.tmp"
    );
    assert_eq!(file_name("../x"), Err(CredentialError::InvalidMac));
    let good = FileFacts {
        regular: true,
        owner: 0,
        mode: 0o100600,
        length: 10,
    };
    assert!(check_file(&good).is_ok());
    for bad in [
        FileFacts {
            regular: false,
            ..good
        },
        FileFacts { owner: 1000, ..good },
        FileFacts {
            mode: 0o100640,
            ..good
        },
        FileFacts {
            length: 65537,
            ..good
        },
    ] {
        assert_eq!(check_file(&bad), Err(CredentialError::UnsafeFile));
    }
    assert!(check_directory(true, 0, 0).is_ok());
    assert_eq!(
        check_directory(true, 1000, 0),
        Err(CredentialError::UnsafeDirectory)
    );
}

#[test]
fn names_of_networks_are_compared_by_their_bytes() {
    let quoted = fields(&[("ssid", "\"abc\""), ("bssid", "AA:BB:CC:DD:EE:00")]);
    let raw = fields(&[("ssid", "616263")]);
    let other = fields(&[("ssid", "616264")]);
    assert!(same_ssid(&quoted, &raw));
    assert!(same_ssid(&raw, &quoted));
    assert!(!same_ssid(&quoted, &other));
    assert!(!same_ssid(&fields(&[]), &fields(&[])));
    assert_eq!(network_name(&raw), Some(b"abc".to_vec()));
    assert!(matches_peer(&quoted, "aa:bb:cc:dd:ee:00"));
    assert_eq!(
        write_address(&[0xaa, 0xbb, 0xcc, 0xdd, 0xee, 0]),
        "aa:bb:cc:dd:ee:00"
    );
}

#[test]
fn newest_group_of_a_network_is_chosen() {
    let props = |ssid: &str| fields(&[("ssid", ssid)]);
    let groups = vec![
        ("/groups/9".to_owned(), props("\"a\"")),
        ("/groups/10".to_owned(), props("\"a\"")),
        ("/groups/11".to_owned(), props("\"b\"")),
    ];
    assert_eq!(choose_newest(&groups, b"a"), Some(1));
    assert_eq!(choose_newest(&groups, b"c"), None);
    assert_eq!(group_number("/groups/10"), 10);
    assert_eq!(choose_group(&[], &None), None);
}

#[test]
fn requests_are_checked_before_they_are_read() {
    assert!(check_line(b"{}\n").is_ok());
    assert_eq!(check_line(b"{}"), Err(HelperError::InvalidRequestLine));
    assert_eq!(
        check_line(&vec![b'\n'; 1025]),
        Err(HelperError::InvalidRequestLine)
    );
    assert!(check_root(0).is_ok());
    assert_eq!(check_root(1000), Err(HelperError::NotRoot));
    assert!(check_deadline(true).is_ok());
    assert_eq!(check_deadline(false), Err(HelperError::DeadlineExceeded));
    assert!(check_configurable("p2p-wlo1-0").is_ok());
    assert_eq!(
        check_configurable("wlo1"),
        Err(HelperError::InvalidInterfaceName)
    );
    let zero = asked(0);
    assert_eq!(validate(zero).err(), Some(HelperError::InvalidTimeout));
}
