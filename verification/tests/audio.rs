use remote_screen::audio::{
    check_connection, check_elapsed, Audio, AudioError, Connection, Reply, Task, Undo,
    INVALID_INDEX,
};

fn opened() -> Audio {
    let (mut audio, first) = Audio::open(42);
    assert_eq!(first, Task::Connect);
    assert_eq!(audio.advance(Reply::Connected), Ok(Task::ReadServer));
    assert_eq!(
        audio.advance(Reply::Server(Some("speakers".to_owned()))),
        Ok(Task::Load {
            arguments: "sink_name=remote_screen_42 rate=48000 channels=2 sink_properties=device.description=LG_C9".to_owned()
        })
    );
    assert_eq!(audio.advance(Reply::Index(7)), Ok(Task::Opened));
    assert_eq!(audio.sink(), "remote_screen_42");
    audio
}

#[test]
fn streams_are_moved_and_moved_back() {
    let mut audio = opened();
    assert_eq!(audio.route(), Task::List);
    assert_eq!(
        audio.advance(Reply::Inputs(Some(vec![(1, 10), (2, 20), (3, 30)]))),
        Ok(Task::Select {
            sink: "remote_screen_42".to_owned()
        })
    );
    let to = |index: u32| Task::Move {
        index,
        sink: "remote_screen_42".to_owned(),
    };
    assert_eq!(audio.advance(Reply::Answer(true)), Ok(to(1)));
    assert_eq!(audio.advance(Reply::Answer(true)), Ok(to(2)));
    // A stream that cannot be moved is left alone.
    assert_eq!(audio.advance(Reply::Answer(false)), Ok(to(3)));
    assert_eq!(audio.advance(Reply::Answer(true)), Ok(Task::Routed));
    assert_eq!(
        audio.restore(true),
        vec![
            Undo::MoveBack { index: 1, sink: 10 },
            Undo::MoveBack { index: 3, sink: 30 },
            Undo::Select("speakers".to_owned()),
            Undo::Unload(7),
            Undo::Disconnect,
        ]
    );
    assert_eq!(audio.restore(true), vec![Undo::Disconnect]);
}

#[test]
fn a_lost_connection_is_only_closed() {
    let mut audio = opened();
    assert_eq!(audio.restore(false), vec![Undo::Disconnect]);
}

#[test]
fn failures_of_the_server_are_told() {
    let (mut audio, _) = Audio::open(1);
    audio.advance(Reply::Connected).unwrap();
    audio.advance(Reply::Server(None)).unwrap();
    assert_eq!(
        audio.advance(Reply::Index(INVALID_INDEX)),
        Err(AudioError::NoOutput)
    );
    assert_eq!(audio.restore(true), vec![Undo::Disconnect]);
    let mut audio = opened();
    audio.route();
    assert_eq!(
        audio.advance(Reply::Inputs(None)),
        Err(AudioError::NotListed)
    );
    let mut audio = opened();
    audio.route();
    audio.advance(Reply::Inputs(Some(vec![]))).unwrap();
    assert_eq!(
        audio.advance(Reply::Answer(false)),
        Err(AudioError::NotSelected)
    );
    let mut audio = opened();
    assert_eq!(
        audio.advance(Reply::Connected),
        Err(AudioError::Unexpected)
    );
    assert_eq!(
        AudioError::NotSelected.text(),
        "Cannot select LG audio output"
    );
}

#[test]
fn waiting_for_the_server_ends() {
    assert_eq!(check_connection(Connection::Ready), Ok(true));
    assert_eq!(check_connection(Connection::Pending), Ok(false));
    assert_eq!(
        check_connection(Connection::Failed),
        Err(AudioError::ConnectionFailed)
    );
    assert_eq!(
        check_connection(Connection::Terminated),
        Err(AudioError::ConnectionFailed)
    );
    assert_eq!(check_elapsed(4999), Ok(()));
    assert_eq!(check_elapsed(5000), Err(AudioError::Timeout));
}
