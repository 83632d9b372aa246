use remote_screen::connecting::{Connecting, Reply, Task, Undo};
use remote_screen::fields::Fields;
use remote_screen::helper::{GroupInfo, HelperError, Operation, Request};
use remote_screen::network::wfd_source_r2;

fn request(allow_pairing: bool, operation: Operation) -> Request {
    Request {
        peer: "aa:bb:cc:dd:ee:00".to_owned(),
        timeout_secs: 60,
        allow_pairing,
        operation,
    }
}

fn paths(list: &[&str]) -> Reply {
    Reply::Paths(list.iter().map(|s| s.to_string()).collect())
}

fn text(s: &str) -> Reply {
    Reply::Text(Some(s.to_owned()))
}

fn pairing(psk: bool) -> Fields {
    let mut props = Fields::new();
    props.set("bssid".to_owned(), "aa:bb:cc:dd:ee:00".to_owned());
    props.set("ssid".to_owned(), "\"net\"".to_owned());
    props.set("mode".to_owned(), "0".to_owned());
    props.set("disabled".to_owned(), "2".to_owned());
    if psk {
        props.set("psk".to_owned(), "\"passphrase\"".to_owned());
    }
    props
}

fn group() -> GroupInfo {
    GroupInfo {
        interface: Some("/interface/9".to_owned()),
        role: Some("client".to_owned()),
        group: Some("/group/1".to_owned()),
        owner_address: Some(vec![192, 168, 49, 1]),
        local_address: Some(vec![192, 168, 49, 10]),
        mask: Some(vec![255, 255, 255, 0]),
    }
}

// The way to the display on the second interface, up to its groups.
fn found(allow_pairing: bool, operation: Operation) -> Connecting {
    let (mut c, first) = Connecting::new(request(allow_pairing, operation));
    assert!(matches!(first, Task::ListInterfaces));
    let task = c.advance(paths(&["/interface/0", "/interface/1"])).unwrap();
    assert!(matches!(task, Task::ReadName { .. }));
    let task = c.advance(text("eth0")).unwrap();
    assert!(matches!(task, Task::ReadName { .. }));
    let task = c.advance(text("wlo1")).unwrap();
    assert!(matches!(task, Task::ListPeers { .. }));
    let task = c.advance(paths(&["/peer/0", "/peer/1"])).unwrap();
    assert!(matches!(task, Task::ReadAddress { .. }));
    let task = c.advance(Reply::Bytes(vec![1, 2, 3, 4, 5, 6])).unwrap();
    assert!(matches!(task, Task::ReadAddress { .. }));
    let task = c
        .advance(Reply::Bytes(vec![0xaa, 0xbb, 0xcc, 0xdd, 0xee, 0]))
        .unwrap();
    assert!(matches!(task, Task::ListGroups { .. }));
    c
}

// From the invitation or the pairing to the connection.
fn connected(c: &mut Connecting, kept: Fields) -> Result<Task, HelperError> {
    assert!(matches!(c.advance(Reply::Done)?, Task::AwaitGroup));
    assert!(matches!(
        c.advance(Reply::Group(group()))?,
        Task::ReadInterfaceName { .. }
    ));
    assert!(matches!(
        c.advance(text("p2p-wlo1-0"))?,
        Task::ReadOwner { .. }
    ));
    assert!(matches!(
        c.advance(Reply::Bytes(vec![0; 6]))?,
        Task::ReadMembership { .. }
    ));
    assert!(matches!(
        c.advance(paths(&["/group/1"]))?,
        Task::ReadNetwork { .. }
    ));
    assert!(matches!(
        c.advance(Reply::Bytes(b"net".to_vec()))?,
        Task::ListGroups { .. }
    ));
    assert!(matches!(
        c.advance(paths(&["/groups/3"]))?,
        Task::ReadGroup { .. }
    ));
    c.advance(Reply::Properties(kept))
}

#[test]
fn saved_groups_are_invited_again() {
    let mut c = found(false, Operation::Connect);
    assert!(matches!(
        c.advance(paths(&["/groups/3"])).unwrap(),
        Task::ReadGroup { .. }
    ));
    assert!(matches!(
        c.advance(Reply::Properties(pairing(true))).unwrap(),
        Task::ListActive
    ));
    assert!(matches!(
        c.advance(paths(&["/interface/0"])).unwrap(),
        Task::ReadActive { .. }
    ));
    assert!(matches!(c.advance(text("/")).unwrap(), Task::Load));
    assert!(matches!(
        c.advance(Reply::Saved(None)).unwrap(),
        Task::Subscribe { .. }
    ));
    assert!(matches!(
        c.advance(Reply::Done).unwrap(),
        Task::ReadAdvertisement
    ));
    match c.advance(Reply::Bytes(vec![9])).unwrap() {
        Task::SetAdvertisement(bytes) => assert_eq!(
            bytes,
            [0, 0, 6, 0, 0x90, 0x1c, 0x44, 0, 0xc8, 0x0b, 0, 2, 0, 0]
        ),
        _ => panic!("an advertisement"),
    }
    match c.advance(Reply::Done).unwrap() {
        Task::Tell(notice) => {
            assert_eq!(notice.message, Some("reinviting saved persistent group"))
        }
        _ => panic!("a notice"),
    }
    match c.advance(Reply::Done).unwrap() {
        Task::Invite { peer, group, .. } => {
            assert_eq!((peer.as_str(), group.as_str()), ("/peer/1", "/groups/3"))
        }
        _ => panic!("an invitation"),
    }
    match connected(&mut c, pairing(true)).unwrap() {
        Task::Save { props } => {
            assert_eq!(props.get("bssid"), Some("aa:bb:cc:dd:ee:00"));
            assert_eq!(props.get("psk"), Some("\"passphrase\""));
        }
        _ => panic!("a file"),
    }
    match c.advance(Reply::Done).unwrap() {
        Task::Configure {
            name,
            address,
            mask,
        } => {
            assert_eq!(name, "p2p-wlo1-0");
            assert_eq!(address, [192, 168, 49, 10]);
            assert_eq!(mask, [255, 255, 255, 0]);
        }
        _ => panic!("an address"),
    }
    match c.advance(Reply::Done).unwrap() {
        Task::Tell(notice) => {
            assert_eq!(notice.event, "ready");
            assert_eq!(notice.interface.as_deref(), Some("p2p-wlo1-0"));
            assert_eq!(notice.reused, Some(true));
        }
        _ => panic!("a notice"),
    }
    assert!(matches!(c.advance(Reply::Done).unwrap(), Task::Hold));
    assert!(c.is_ready());
    assert!(matches!(c.cleanup().first(), Undo::Disconnect(s) if s == "/interface/9"));
    assert_eq!(
        c.cleanup().restored_advertisement(&Some(wfd_source_r2())),
        Some(vec![9])
    );
    assert_eq!(c.cleanup().restored_advertisement(&Some(vec![1])), None);
}

#[test]
fn no_pairing_is_made_without_leave() {
    let mut c = found(false, Operation::Connect);
    c.advance(paths(&[])).unwrap();
    c.advance(paths(&[])).unwrap();
    assert_eq!(
        c.advance(Reply::Saved(None)).err(),
        Some(HelperError::PairingForbidden)
    );
    assert!(matches!(c.cleanup().first(), Undo::Nothing));
}

#[test]
fn pairings_are_made_where_there_is_none() {
    let mut c = found(true, Operation::Connect);
    c.advance(paths(&[])).unwrap();
    c.advance(paths(&["/interface/0"])).unwrap();
    assert!(matches!(
        c.advance(Reply::Text(None)).unwrap(),
        Task::Load
    ));
    c.advance(Reply::Saved(None)).unwrap();
    c.advance(Reply::Done).unwrap();
    c.advance(Reply::Bytes(vec![])).unwrap();
    assert!(matches!(c.advance(Reply::Done).unwrap(), Task::Tell(_)));
    assert!(matches!(
        c.advance(Reply::Done).unwrap(),
        Task::Pair {
            persistent: true,
            method: "pbc",
            intent: 7,
            ..
        }
    ));
    assert!(matches!(c.cleanup().first(), Undo::Cancel(s) if s == "/interface/1"));
    assert!(!c.cleanup().is_new("/interface/0"));
    let ours = ["/group/1".to_owned()].to_vec();
    assert!(c
        .cleanup()
        .is_ours("/interface/9", "/group/1", &ours, "p2p-wlo1-0"));
    assert!(!c
        .cleanup()
        .is_ours("/interface/0", "/group/1", &ours, "p2p-wlo1-0"));
    assert!(!c
        .cleanup()
        .is_ours("/interface/9", "/group/2", &ours, "p2p-wlo1-0"));
    assert!(!c
        .cleanup()
        .is_ours("/interface/9", "/group/1", &ours, "wlo1"));
    // A pairing without its key cannot be kept.
    assert_eq!(
        connected(&mut c, pairing(false)).err(),
        Some(HelperError::NotExportable)
    );
}

#[test]
fn saved_pairings_are_restored_first() {
    let mut c = found(false, Operation::Connect);
    c.advance(paths(&[])).unwrap();
    c.advance(paths(&[])).unwrap();
    assert!(matches!(
        c.advance(Reply::Saved(Some(pairing(true)))).unwrap(),
        Task::Restore { .. }
    ));
    assert!(matches!(
        c.advance(text("/groups/7")).unwrap(),
        Task::Tell(_)
    ));
    assert!(matches!(
        c.advance(Reply::Done).unwrap(),
        Task::Subscribe { .. }
    ));
    c.advance(Reply::Done).unwrap();
    c.advance(Reply::Bytes(vec![])).unwrap();
    c.advance(Reply::Done).unwrap();
    match c.advance(Reply::Done).unwrap() {
        Task::Invite { group, .. } => assert_eq!(group, "/groups/7"),
        _ => panic!("an invitation"),
    }
    // The key is known from the disk.
    assert!(matches!(
        connected(&mut c, pairing(false)).unwrap(),
        Task::Configure { .. }
    ));
}

#[test]
fn inspections_only_count() {
    let mut c = found(false, Operation::Inspect);
    c.advance(paths(&["/groups/3"])).unwrap();
    match c.advance(Reply::Properties(pairing(true))).unwrap() {
        Task::Tell(notice) => {
            assert_eq!((notice.event, notice.count), ("inspection", Some(1)))
        }
        _ => panic!("a notice"),
    }
    assert!(matches!(c.advance(Reply::Done).unwrap(), Task::Finished));
    let mut c = found(false, Operation::Inspect);
    assert!(matches!(c.advance(paths(&[])).unwrap(), Task::Load));
    match c.advance(Reply::Saved(None)).unwrap() {
        Task::Tell(notice) => assert_eq!(notice.count, Some(0)),
        _ => panic!("a notice"),
    }
}

#[test]
fn other_groups_and_roles_are_refused() {
    let (mut c, _) = Connecting::new(request(true, Operation::Connect));
    assert_eq!(
        c.advance(paths(&[])).err(),
        Some(HelperError::NotDiscovered)
    );
    let mut c = found(true, Operation::Connect);
    c.advance(paths(&[])).unwrap();
    c.advance(paths(&["/interface/0"])).unwrap();
    assert_eq!(
        c.advance(text("/group/8")).err(),
        Some(HelperError::GroupExists)
    );
    let mut c = found(true, Operation::Connect);
    assert_eq!(c.advance(Reply::Done).err(), Some(HelperError::Unexpected));
}

#[test]
fn displays_have_to_own_the_group() {
    let start = || {
        let mut c = found(true, Operation::Connect);
        c.advance(paths(&[])).unwrap();
        c.advance(paths(&[])).unwrap();
        c.advance(Reply::Saved(None)).unwrap();
        c.advance(Reply::Done).unwrap();
        c.advance(Reply::Bytes(vec![])).unwrap();
        c.advance(Reply::Done).unwrap();
        c.advance(Reply::Done).unwrap();
        c.advance(Reply::Done).unwrap();
        c
    };
    let mut c = start();
    let mut owner = group();
    owner.role = Some("GO".to_owned());
    assert_eq!(
        c.advance(Reply::Group(owner)).err(),
        Some(HelperError::NotOwner)
    );
    assert!(matches!(c.cleanup().first(), Undo::Disconnect(_)));
    let mut c = start();
    let mut bare = group();
    bare.interface = None;
    assert_eq!(
        c.advance(Reply::Group(bare)).err(),
        Some(HelperError::NoInterface)
    );
    let mut c = start();
    let mut pathless = group();
    pathless.group = None;
    c.advance(Reply::Group(pathless)).unwrap();
    assert_eq!(
        c.advance(text("p2p-wlo1-0")).err(),
        Some(HelperError::NoGroup)
    );
    let mut c = start();
    c.advance(Reply::Group(group())).unwrap();
    c.advance(text("p2p-wlo1-0")).unwrap();
    c.advance(Reply::Bytes(vec![0; 6])).unwrap();
    assert_eq!(
        c.advance(paths(&["/group/2"])).err(),
        Some(HelperError::OtherGroup)
    );
}
