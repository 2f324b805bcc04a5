use file_transfer::endpoint::{Endpoint, Host};
use file_transfer::exchange::{Action, Event};
use file_transfer::mode::SenderOrReceiver;
use file_transfer::notice::Notice;
use file_transfer::receiver::{run_receiver, ReceiveState};
use file_transfer::sender::{run_sender, SendState};
use file_transfer::transfer::Transfer;

fn send(contents: Vec<u8>) -> Vec<u8> {
    let target = Endpoint { host: Host::V4 { octets: 0x7f000001 }, port: 526 };
    let (mut state, _) = SendState::start();
    let mut wire: Vec<u8> = Vec::new();
    let events = vec![
        Event::FileReady,
        Event::Contents(contents),
        Event::Reported,
        Event::AddressReady(target),
        Event::Connected,
        Event::Transmitted,
        Event::Disconnected,
        Event::Reported,
    ];
    for event in events {
        let (next, action) = run_sender(state, event);
        state = next;
        if let Action::Transmit(bytes) = action {
            wire.extend_from_slice(&bytes);
        }
    }
    assert_eq!(state, SendState::Finished);
    wire
}

fn receive(wire: &[u8], chunk: usize) -> Vec<u8> {
    let (mut state, _) = ReceiveState::start();
    let mut file: Vec<u8> = Vec::new();
    let mut events = vec![Event::FileReady, Event::Bound, Event::Accepted];
    for piece in wire.chunks(chunk) {
        events.push(Event::Data(piece.to_vec()));
    }
    events.extend(vec![Event::EndOfStream, Event::Reported, Event::Stored, Event::Reported]);
    for event in events {
        let (next, action) = run_receiver(state, event);
        state = next;
        if let Action::Store(bytes) = action {
            file.extend_from_slice(&bytes);
        }
    }
    assert_eq!(state, ReceiveState::Finished);
    file
}

#[test]
fn round_trip_keeps_every_byte() {
    let contents: Vec<u8> = vec![0, 255, 1, 254, 13, 10, 0, 0, 42];
    let wire = send(contents.clone());
    assert_eq!(wire, contents);
    assert_eq!(receive(&wire, 1), contents);
    assert_eq!(receive(&wire, 4), contents);
    assert_eq!(receive(&wire, 9), contents);
    assert_eq!(receive(&wire, 100), contents);
}

#[test]
fn round_trip_of_an_empty_file() {
    let wire = send(Vec::new());
    assert_eq!(wire, Vec::<u8>::new());
    assert_eq!(receive(&wire, 8), Vec::<u8>::new());
}

#[test]
fn round_trip_of_every_byte_value() {
    let mut contents: Vec<u8> = Vec::new();
    for value in 0..=255u8 {
        contents.push(value);
    }
    let wire = send(contents.clone());
    assert_eq!(receive(&wire, 7), contents);
}

#[test]
fn round_trip_of_a_large_payload() {
    let length: usize = 32 * 1024 * 1024 + 5;
    let mut contents: Vec<u8> = vec![0; length];
    let mut seed: u32 = 12345;
    for slot in contents.iter_mut().step_by(4099) {
        seed = seed.wrapping_mul(1664525).wrapping_add(1013904223);
        *slot = seed.to_be_bytes()[0];
    }
    contents[length - 1] = 77;
    let wire = send(contents.clone());
    assert!(wire == contents);
    let file = receive(&wire, 65536);
    assert_eq!(file.len(), length);
    assert!(file == contents);
}

#[test]
fn large_payload_is_announced_with_its_full_size() {
    let length: usize = 20 * 1024 * 1024;
    let (state, _) = SendState::start();
    let (state, _) = run_sender(state, Event::FileReady);
    let (state, action) = run_sender(state, Event::Contents(vec![7; length]));
    assert_eq!(action, Action::Report(Notice::Sending(20971520)));
    assert_eq!(Notice::Sending(length).text(), "Sending 20971520 bytes");
    match state {
        SendState::Announcing { payload } => assert_eq!(payload.len(), length),
        other => panic!("unexpected state {:?}", other),
    }
}

#[test]
fn transfer_starts_in_the_chosen_role() {
    let (sending, first) = Transfer::start(SenderOrReceiver::Sender);
    assert_eq!(sending, Transfer::Sending(SendState::AwaitingFile));
    assert_eq!(first, Action::AcquireFile);
    assert_eq!(sending.mode(), SenderOrReceiver::Sender);
    let (receiving, first) = Transfer::start(SenderOrReceiver::Receiver);
    assert_eq!(receiving, Transfer::Receiving(ReceiveState::AwaitingFile));
    assert_eq!(first, Action::AcquireFile);
    assert_eq!(receiving.mode(), SenderOrReceiver::Receiver);
}

#[test]
fn transfer_steps_as_its_role_does() {
    let (transfer, _) = Transfer::start(SenderOrReceiver::Sender);
    let (transfer, action) = transfer.step(Event::FileReady);
    assert_eq!(transfer, Transfer::Sending(SendState::Loading));
    assert_eq!(action, Action::ReadFile);
    assert!(!transfer.is_over());

    let (transfer, _) = Transfer::start(SenderOrReceiver::Receiver);
    let (transfer, action) = transfer.step(Event::FileReady);
    assert_eq!(transfer, Transfer::Receiving(ReceiveState::Binding));
    assert_eq!(action, Action::Bind(Endpoint::listening()));
    assert!(!transfer.is_over());
}

#[test]
fn transfer_keeps_its_role_to_the_end() {
    let (mut transfer, _) = Transfer::start(SenderOrReceiver::Receiver);
    let events = vec![
        Event::FileReady,
        Event::Bound,
        Event::Accepted,
        Event::Data(vec![1, 2, 3]),
        Event::EndOfStream,
        Event::Reported,
        Event::Stored,
        Event::Reported,
    ];
    for event in events {
        let (next, _) = transfer.step(event);
        assert_eq!(next.mode(), SenderOrReceiver::Receiver);
        transfer = next;
    }
    assert!(transfer.is_over());
    assert_eq!(transfer, Transfer::Receiving(ReceiveState::Finished));
}
