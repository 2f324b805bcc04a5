use file_transfer::endpoint::{Endpoint, Host};
use file_transfer::exchange::{Action, Event, Fault};
use file_transfer::notice::Notice;
use file_transfer::receiver::{run_receiver, ReceiveState};

fn drive(events: Vec<Event>) -> (ReceiveState, Vec<Action>) {
    let (mut state, first) = ReceiveState::start();
    let mut actions = vec![first];
    for event in events {
        let (next, action) = run_receiver(state, event);
        state = next;
        actions.push(action);
    }
    (state, actions)
}

#[test]
fn receiver_begins_by_asking_for_the_file() {
    let (state, action) = ReceiveState::start();
    assert_eq!(state, ReceiveState::AwaitingFile);
    assert_eq!(action, Action::AcquireFile);
    assert!(!state.is_over());
}

#[test]
fn receiver_runs_its_steps_in_order() {
    let (state, actions) = drive(vec![
        Event::FileReady,
        Event::Bound,
        Event::Accepted,
        Event::Data(vec![10, 20, 30]),
        Event::EndOfStream,
        Event::Reported,
        Event::Stored,
        Event::Reported,
    ]);
    assert_eq!(state, ReceiveState::Finished);
    assert!(state.is_over());
    assert_eq!(
        actions,
        vec![
            Action::AcquireFile,
            Action::Bind(Endpoint { host: Host::V4 { octets: 0 }, port: 526 }),
            Action::Accept,
            Action::Receive,
            Action::Receive,
            Action::Report(Notice::Received(3)),
            Action::Store(vec![10, 20, 30]),
            Action::Report(Notice::Done),
            Action::Finish,
        ]
    );
}

#[test]
fn receiver_assembles_separate_writes() {
    let (state, actions) = drive(vec![
        Event::FileReady,
        Event::Bound,
        Event::Accepted,
        Event::Data(vec![1, 2]),
        Event::Data(vec![3]),
        Event::Data(Vec::new()),
        Event::Data(vec![4, 5, 6]),
    ]);
    assert_eq!(state, ReceiveState::Receiving { buffer: vec![1, 2, 3, 4, 5, 6] });
    assert_eq!(
        actions[4..],
        vec![Action::Receive, Action::Receive, Action::Receive, Action::Receive]
    );
    let (state, actions) = drive(vec![
        Event::FileReady,
        Event::Bound,
        Event::Accepted,
        Event::Data(vec![1, 2]),
        Event::Data(vec![3]),
        Event::Data(Vec::new()),
        Event::Data(vec![4, 5, 6]),
        Event::EndOfStream,
        Event::Reported,
    ]);
    assert_eq!(state, ReceiveState::Storing);
    assert_eq!(actions[8], Action::Report(Notice::Received(6)));
    assert_eq!(actions[9], Action::Store(vec![1, 2, 3, 4, 5, 6]));
}

#[test]
fn receiver_writes_nothing_while_the_stream_is_open() {
    let (state, actions) = drive(vec![
        Event::FileReady,
        Event::Bound,
        Event::Accepted,
        Event::Data(vec![1]),
        Event::Data(vec![2]),
        Event::Data(vec![3]),
    ]);
    assert!(!state.is_over());
    assert!(actions
        .iter()
        .all(|action| !matches!(action, Action::Store(_) | Action::Report(_) | Action::Finish)));
    assert_eq!(actions[6], Action::Receive);
}

#[test]
fn receiver_stores_an_empty_payload() {
    let (state, actions) = drive(vec![
        Event::FileReady,
        Event::Bound,
        Event::Accepted,
        Event::EndOfStream,
        Event::Reported,
        Event::Stored,
        Event::Reported,
    ]);
    assert_eq!(state, ReceiveState::Finished);
    assert_eq!(actions[4], Action::Report(Notice::Received(0)));
    assert_eq!(actions[5], Action::Store(Vec::new()));
    assert_eq!(actions[7], Action::Finish);
}

#[test]
fn receiver_takes_a_single_connection() {
    let (state, actions) = drive(vec![
        Event::FileReady,
        Event::Bound,
        Event::Accepted,
        Event::Data(vec![1]),
        Event::Accepted,
        Event::Bound,
        Event::Accepted,
    ]);
    assert_eq!(state, ReceiveState::Aborted);
    assert_eq!(actions[5], Action::Abort(Fault::OutOfTurn));
    let accepts: usize = actions.iter().filter(|action| matches!(action, Action::Accept)).count();
    assert_eq!(accepts, 1);
    let binds: usize = actions.iter().filter(|action| matches!(action, Action::Bind(_))).count();
    assert_eq!(binds, 1);
    assert!(actions.iter().all(|action| !matches!(action, Action::Store(_))));
}

#[test]
fn port_in_use_aborts_the_receiver() {
    let (state, actions) =
        drive(vec![Event::FileReady, Event::Failed("Address already in use (os error 98)".to_string())]);
    assert_eq!(state, ReceiveState::Aborted);
    assert_eq!(
        actions[2],
        Action::Abort(Fault::Io("Address already in use (os error 98)".to_string()))
    );
    assert!(actions.iter().all(|action| !matches!(action, Action::Accept)));
}

#[test]
fn failed_accept_aborts_the_receiver() {
    let (state, actions) = drive(vec![
        Event::FileReady,
        Event::Bound,
        Event::Failed("Too many open files (os error 24)".to_string()),
    ]);
    assert_eq!(state, ReceiveState::Aborted);
    assert_eq!(
        actions[3],
        Action::Abort(Fault::Io("Too many open files (os error 24)".to_string()))
    );
}

#[test]
fn read_error_discards_what_had_arrived() {
    let (state, actions) = drive(vec![
        Event::FileReady,
        Event::Bound,
        Event::Accepted,
        Event::Data(vec![1, 2, 3]),
        Event::Failed("Connection reset by peer (os error 104)".to_string()),
        Event::Reported,
        Event::EndOfStream,
    ]);
    assert_eq!(state, ReceiveState::Aborted);
    assert_eq!(
        actions[5],
        Action::Abort(Fault::Io("Connection reset by peer (os error 104)".to_string()))
    );
    assert_eq!(actions[6], Action::Halt);
    assert_eq!(actions[7], Action::Halt);
    assert!(actions.iter().all(|action| !matches!(action, Action::Store(_))));
}

#[test]
fn failed_file_write_aborts_the_receiver() {
    let (state, actions) = drive(vec![
        Event::FileReady,
        Event::Bound,
        Event::Accepted,
        Event::Data(vec![1, 2, 3]),
        Event::EndOfStream,
        Event::Reported,
        Event::Failed("No space left on device (os error 28)".to_string()),
    ]);
    assert_eq!(state, ReceiveState::Aborted);
    assert_eq!(
        actions[7],
        Action::Abort(Fault::Io("No space left on device (os error 28)".to_string()))
    );
    assert!(actions
        .iter()
        .all(|action| !matches!(action, Action::Report(Notice::Done) | Action::Finish)));
}

#[test]
fn event_out_of_turn_aborts_the_receiver() {
    let (state, actions) = drive(vec![Event::FileReady, Event::Bound, Event::Data(vec![1])]);
    assert_eq!(state, ReceiveState::Aborted);
    assert_eq!(actions[3], Action::Abort(Fault::OutOfTurn));
    let (state, actions) = drive(vec![Event::Contents(vec![1])]);
    assert_eq!(state, ReceiveState::Aborted);
    assert_eq!(actions[1], Action::Abort(Fault::OutOfTurn));
}

#[test]
fn finished_receiver_only_halts() {
    let (state, actions) = drive(vec![
        Event::FileReady,
        Event::Bound,
        Event::Accepted,
        Event::EndOfStream,
        Event::Reported,
        Event::Stored,
        Event::Reported,
        Event::Accepted,
        Event::Data(vec![1]),
    ]);
    assert_eq!(state, ReceiveState::Finished);
    assert_eq!(actions[8], Action::Halt);
    assert_eq!(actions[9], Action::Halt);
}
