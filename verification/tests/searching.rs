use remote_screen::activation::{
    show_list, Activation, Answer, Availability, Question, Reply as Seen, Task as Wait,
};
use remote_screen::network::{wfd_source_r2, NetworkError, Peer};
use remote_screen::search::{Facts, Reply, Search, Task};

fn paths(list: &[&str]) -> Vec<String> {
    list.iter().map(|s| s.to_string()).collect()
}

fn display(name: &str, mac: &str) -> Reply {
    let mut elements = wfd_source_r2();
    elements[4] |= 1;
    Reply::Facts(Some(Facts {
        elements,
        name: name.to_owned(),
        mac: mac.to_owned(),
    }))
}

#[test]
fn searches_list_displays_once_and_in_order() {
    let (mut search, first) = Search::new(8);
    assert_eq!(first, Task::ListDevices);
    let ask = |device: &str| Task::ReadKind {
        device: device.to_owned(),
    };
    assert_eq!(
        search.advance(Reply::Paths(paths(&["/eth", "/p2p"])), false, 0),
        Ok(ask("/eth"))
    );
    assert_eq!(search.advance(Reply::Kind(1), false, 0), Ok(ask("/p2p")));
    assert_eq!(
        search.advance(Reply::Kind(30), false, 0),
        Ok(Task::StartFind {
            device: "/p2p".to_owned(),
            seconds: 8
        })
    );
    let list = || Task::ListPeers {
        device: "/p2p".to_owned(),
    };
    assert_eq!(search.advance(Reply::Done, false, 1000), Ok(list()));
    let read = |peer: &str| Task::ReadPeer {
        device: "/p2p".to_owned(),
        peer: peer.to_owned(),
    };
    assert_eq!(
        search.advance(Reply::Paths(paths(&["/1", "/2", "/3"])), false, 1000),
        Ok(read("/1"))
    );
    assert_eq!(
        search.advance(display("zebra", "AA:00:00:00:00:01"), false, 1000),
        Ok(read("/2"))
    );
    // A source, and one that is gone, are no displays.
    assert_eq!(
        search.advance(
            Reply::Facts(Some(Facts {
                elements: wfd_source_r2(),
                name: "source".to_owned(),
                mac: "AA:00:00:00:00:02".to_owned()
            })),
            false,
            1000
        ),
        Ok(read("/3"))
    );
    assert_eq!(
        search.advance(Reply::Facts(None), false, 1000),
        Ok(Task::Pause)
    );
    assert_eq!(search.advance(Reply::Done, false, 8999), Ok(list()));
    assert_eq!(
        search.advance(Reply::Paths(paths(&["/4", "/1"])), false, 8999),
        Ok(read("/4"))
    );
    assert_eq!(
        search.advance(display("apple", "AA:00:00:00:00:04"), false, 8999),
        Ok(read("/1"))
    );
    let found = |name: &str, mac: &str, peer: &str| Peer {
        name: name.to_owned(),
        mac: mac.to_owned(),
        device: "/p2p".to_owned(),
        peer: peer.to_owned(),
    };
    // The time is over: what was found is listed by name, the newest facts in place of old ones.
    assert_eq!(
        search.advance(display("banana", "AA:00:00:00:00:01"), false, 9000),
        Ok(Task::Found(vec![
            found("apple", "AA:00:00:00:00:04", "/4"),
            found("banana", "AA:00:00:00:00:01", "/1"),
        ]))
    );
}

#[test]
fn searches_end_without_a_device_or_when_given_up() {
    let (mut search, _) = Search::new(8);
    assert_eq!(
        search.advance(Reply::Paths(paths(&[])), false, 0),
        Err(NetworkError::NoDevice)
    );
    let (mut search, _) = Search::new(8);
    assert_eq!(
        search.advance(Reply::Paths(paths(&["/p2p"])), true, 0),
        Err(NetworkError::Cancelled)
    );
    let (mut search, _) = Search::new(8);
    assert_eq!(
        search.advance(Reply::Done, false, 0),
        Err(NetworkError::Unexpected)
    );
}

#[test]
fn connections_in_the_way_are_found() {
    let (mut questions, first) = Availability::new("/device");
    assert_eq!(first, Question::Device("/device".to_owned()));
    assert_eq!(
        questions.advance(Answer::Active("/".to_owned())),
        Ok(Question::Connections)
    );
    assert_eq!(
        questions.advance(Answer::Paths(paths(&["/c1", "/c2"]))),
        Ok(Question::Connection("/c1".to_owned()))
    );
    let state = |kind: &str, state: u32| Answer::Connection {
        kind: kind.to_owned(),
        state,
    };
    assert_eq!(
        questions.advance(state("802-3-ethernet", 2)),
        Ok(Question::Connection("/c2".to_owned()))
    );
    assert_eq!(
        questions.advance(state("wifi-p2p", 4)),
        Ok(Question::Available)
    );
    let (mut questions, _) = Availability::new("/device");
    assert_eq!(
        questions.advance(Answer::Active("/c9".to_owned())),
        Err(NetworkError::DeviceBusy("/c9".to_owned()))
    );
    let (mut questions, _) = Availability::new("/device");
    questions.advance(Answer::Active("/".to_owned())).unwrap();
    questions.advance(Answer::Paths(paths(&["/c1"]))).unwrap();
    assert_eq!(
        questions.advance(state("wifi-p2p", 2)),
        Err(NetworkError::ConnectionBusy("/c1".to_owned()))
    );
}

#[test]
fn connections_are_up_with_the_local_address() {
    let (mut wait, first) = Activation::new(1000, false).unwrap();
    assert_eq!(first, Wait::ReadState);
    assert_eq!(wait.advance(Seen::State(1), false, 0), Ok(Wait::Pause));
    assert_eq!(wait.advance(Seen::Done, false, 100), Ok(Wait::ReadState));
    assert_eq!(
        wait.advance(Seen::State(2), false, 100),
        Ok(Wait::ListDevices)
    );
    let config = |device: &str| Wait::ReadConfig {
        device: device.to_owned(),
    };
    assert_eq!(
        wait.advance(Seen::Paths(paths(&["/d1", "/d2"])), false, 100),
        Ok(config("/d1"))
    );
    assert_eq!(
        wait.advance(Seen::Text("/".to_owned()), false, 100),
        Ok(config("/d2"))
    );
    assert_eq!(
        wait.advance(Seen::Text("/ip".to_owned()), false, 100),
        Ok(Wait::ReadAddresses {
            config: "/ip".to_owned()
        })
    );
    assert_eq!(
        wait.advance(
            Seen::Addresses(vec![None, Some("192.168.49.10".to_owned())]),
            false,
            100
        ),
        Ok(Wait::ReadIpInterface {
            device: "/d2".to_owned()
        })
    );
    assert_eq!(
        wait.advance(Seen::Text(String::new()), false, 100),
        Ok(Wait::ReadInterface {
            device: "/d2".to_owned()
        })
    );
    assert_eq!(
        wait.advance(Seen::Text("p2p-wlo1-3".to_owned()), false, 100),
        Ok(Wait::Connected {
            interface: "p2p-wlo1-3".to_owned()
        })
    );
}

#[test]
fn connections_that_fail_are_given_up() {
    let start = || Activation::new(1000, false).unwrap().0;
    assert_eq!(
        start().advance(Seen::State(4), false, 0),
        Err(NetworkError::ActivationFailed(4))
    );
    assert_eq!(
        start().advance(Seen::State(1), false, 1000),
        Err(NetworkError::ActivationTimeout)
    );
    let mut stopped = start();
    stopped.advance(Seen::State(1), false, 0).unwrap();
    assert_eq!(
        stopped.advance(Seen::Done, true, 0),
        Err(NetworkError::Cancelled)
    );
    assert_eq!(
        Activation::new(1000, true).err(),
        Some(NetworkError::Cancelled)
    );
    let mut foreign = start();
    foreign.advance(Seen::State(2), false, 0).unwrap();
    foreign
        .advance(Seen::Paths(paths(&["/d"])), false, 0)
        .unwrap();
    foreign
        .advance(Seen::Text("/ip".to_owned()), false, 0)
        .unwrap();
    let addresses = vec![
        Some("10.0.0.1".to_owned()),
        None,
        Some("10.0.0.2".to_owned()),
    ];
    assert_eq!(
        foreign
            .advance(Seen::Addresses(addresses), false, 0)
            .unwrap_err()
            .text(),
        "Wi-Fi Direct DHCP assigned [\"10.0.0.1\", \"10.0.0.2\"], but the current firewall permits 192.168.49.10. The firewall was not changed."
    );
    let mut odd = start();
    odd.advance(Seen::State(2), false, 0).unwrap();
    odd.advance(Seen::Paths(paths(&["/d"])), false, 0).unwrap();
    odd.advance(Seen::Text("/ip".to_owned()), false, 0).unwrap();
    let addresses = ["a\"b", "c\\d\n", "\u{200b}'"];
    assert_eq!(
        odd.advance(
            Seen::Addresses(addresses.iter().map(|a| Some(a.to_string())).collect()),
            false,
            0
        ),
        Err(NetworkError::ForeignAddresses(format!("{addresses:?}")))
    );
    assert_eq!(show_list(&Vec::new()), "[]");
    assert_eq!(show_list(&paths(&["x", "y", "z"])), "[x, y, z]");
    let mut empty = start();
    empty.advance(Seen::State(2), false, 0).unwrap();
    empty.advance(Seen::Paths(paths(&["/d"])), false, 0).unwrap();
    empty
        .advance(Seen::Text("/ip".to_owned()), false, 0)
        .unwrap();
    assert_eq!(
        empty.advance(Seen::Addresses(vec![]), false, 0),
        Ok(Wait::Pause)
    );
}
