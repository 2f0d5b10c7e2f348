use anime_cli::batch::{Action, Event, TransferRequest};
use anime_cli::download::Orchestrator;
use anime_cli::irc::parse_message;
use anime_cli::progress::Status;
use anime_cli::search::Offer;
use anime_cli::session::{Failure, Outcome, ProgressEvent, SessionEvent};

fn request(bot: &str, pack_number: u32, filename: &str, size_bytes: u64) -> TransferRequest {
    TransferRequest {
        offer: Offer {
            bot: bot.as_bytes().to_vec(),
            pack_number,
            filename: filename.as_bytes().to_vec(),
            size_bytes,
        },
        destination_dir: b"/downloads".to_vec(),
    }
}

fn send(line: &str) -> Action {
    Action::Send(line.as_bytes().to_vec())
}

fn notice(bot: &str, filename: &str, address: u32, port: u16, size: u64) -> Event {
    let line = format!(
        ":{}!bot@host PRIVMSG me :\x01DCC SEND {} {} {} {}\x01",
        bot, filename, address, port, size
    );
    Event::Message(parse_message(line.as_bytes()).unwrap())
}

fn last_words(actions: &[Action]) -> usize {
    actions.iter().filter(|a| **a == Action::Report(Status::AllFinished)).count()
}

fn opening() -> Vec<Action> {
    vec![send("NICK :me\r\n"), send("USER me 0 * :me\r\n"), send("JOIN :#nibl\r\n")]
}

#[test]
fn batch_begins_with_registration_and_requests() {
    let (batch, actions) = Orchestrator::new(
        b"me",
        b"nibl",
        vec![request("Bot1", 42, "a.mkv", 100), request("Bot2", 7, "b.mkv", 200)],
    );
    let mut expected = opening();
    expected.extend(vec![
        send("PRIVMSG Bot1 :XDCC SEND 42\r\n"),
        Action::Report(Status::Queued),
        send("PRIVMSG Bot2 :XDCC SEND 7\r\n"),
        Action::Report(Status::Queued),
    ]);
    assert_eq!(actions, expected);
    assert_eq!(batch.len(), 2);
    assert_eq!(batch.outcome(0), None);
    assert_eq!(batch.outcome(1), None);
    assert_eq!(batch.outcome(2), None);
    assert!(!batch.is_finished());
    assert_eq!(batch.path(0), Some(b"/downloads/a.mkv".to_vec()));
    assert_eq!(batch.path(2), None);
    assert_eq!(batch.request(1), Some(&request("Bot2", 7, "b.mkv", 200)));
    assert_eq!(batch.request(2), None);
    assert_eq!(batch.session(0), None);
}

#[test]
fn same_bot_is_asked_after_a_pause() {
    let (_, actions) = Orchestrator::new(
        b"me",
        b"#nibl",
        vec![
            request("Bot1", 1, "a.mkv", 1),
            request("Bot2", 2, "b.mkv", 1),
            request("Bot1", 3, "c.mkv", 1),
        ],
    );
    let mut expected = opening();
    expected.extend(vec![
        send("PRIVMSG Bot1 :XDCC SEND 1\r\n"),
        Action::Report(Status::Queued),
        send("PRIVMSG Bot2 :XDCC SEND 2\r\n"),
        Action::Report(Status::Queued),
        Action::Pause,
        send("PRIVMSG Bot1 :XDCC SEND 3\r\n"),
        Action::Report(Status::Queued),
    ]);
    assert_eq!(actions, expected);
}

#[test]
fn empty_batch_is_finished_at_once() {
    let (batch, actions) = Orchestrator::new(b"me", b"nibl", vec![]);
    let mut expected = opening();
    expected.push(Action::Report(Status::AllFinished));
    assert_eq!(actions, expected);
    assert!(batch.is_finished());
}

#[test]
fn same_request_twice_is_a_collision() {
    let (mut batch, actions) = Orchestrator::new(
        b"me",
        b"nibl",
        vec![request("Bot1", 42, "a.mkv", 100), request("Bot1", 42, "a.mkv", 100)],
    );
    let mut expected = opening();
    expected.extend(vec![
        send("PRIVMSG Bot1 :XDCC SEND 42\r\n"),
        Action::Report(Status::Queued),
        Action::Progress { request: 1, event: ProgressEvent::End },
        Action::Report(Status::Failed(Failure::Collision)),
    ]);
    assert_eq!(actions, expected);
    assert_eq!(batch.outcome(0), None);
    assert_eq!(batch.outcome(1), Some(Outcome::Failed(Failure::Collision)));
    let more = batch.step(&notice("Bot1", "a.mkv", 1, 2, 100));
    assert_eq!(
        more,
        vec![
            Action::Report(Status::Connecting),
            Action::Connect { request: 0, address: 1, port: 2, path: b"/downloads/a.mkv".to_vec() },
        ]
    );
    batch.step(&Event::Data(0, SessionEvent::Chunk(100)));
    let end = batch.step(&Event::Data(0, SessionEvent::Closed));
    assert_eq!(batch.outcome(0), Some(Outcome::Success));
    assert_eq!(batch.outcome(1), Some(Outcome::Failed(Failure::Collision)));
    assert_eq!(last_words(&end), 1);
}

#[test]
fn names_that_are_stored_alike_collide() {
    let (batch, _) = Orchestrator::new(
        b"me",
        b"nibl",
        vec![
            request("Bot1", 1, "a/b.mkv", 100),
            request("Bot2", 2, "a\\b.mkv", 100),
            request("Bot3", 3, "a_b.mkv", 100),
            request("Bot4", 4, "other.mkv", 100),
        ],
    );
    assert_eq!(batch.outcome(0), None);
    assert_eq!(batch.outcome(1), Some(Outcome::Failed(Failure::Collision)));
    assert_eq!(batch.outcome(2), Some(Outcome::Failed(Failure::Collision)));
    assert_eq!(batch.outcome(3), None);
}

#[test]
fn same_name_in_another_directory_does_not_collide() {
    let mut second = request("Bot1", 42, "a.mkv", 100);
    second.destination_dir = b"/elsewhere".to_vec();
    let (batch, _) = Orchestrator::new(b"me", b"nibl", vec![request("Bot1", 42, "a.mkv", 100), second]);
    assert_eq!(batch.outcome(0), None);
    assert_eq!(batch.outcome(1), None);
}

#[test]
fn two_bots_two_transfers_one_last_word() {
    let (mut batch, first) = Orchestrator::new(
        b"me",
        b"nibl",
        vec![request("Bot1", 42, "a.mkv", 100), request("Bot2", 7, "b.mkv", 50)],
    );
    let mut all: Vec<Action> = first;
    assert!(all.contains(&send("PRIVMSG Bot1 :XDCC SEND 42\r\n")));
    assert!(all.contains(&send("PRIVMSG Bot2 :XDCC SEND 7\r\n")));

    let second_notice = batch.step(&notice("Bot2", "b.mkv", 167772161, 6000, 50));
    assert_eq!(
        second_notice,
        vec![
            Action::Report(Status::Connecting),
            Action::Connect {
                request: 1,
                address: 167772161,
                port: 6000,
                path: b"/downloads/b.mkv".to_vec(),
            },
        ]
    );
    all.extend(second_notice);
    let first_notice = batch.step(&notice("Bot1", "a.mkv", 3232235777, 5000, 100));
    assert_eq!(
        first_notice,
        vec![
            Action::Report(Status::Connecting),
            Action::Connect {
                request: 0,
                address: 3232235777,
                port: 5000,
                path: b"/downloads/a.mkv".to_vec(),
            },
        ]
    );
    all.extend(first_notice);

    let a1 = batch.step(&Event::Data(0, SessionEvent::Chunk(60)));
    assert_eq!(
        a1,
        vec![
            Action::Report(Status::Downloading),
            Action::Progress { request: 0, event: ProgressEvent::Bytes(60) },
        ]
    );
    all.extend(a1);
    let b1 = batch.step(&Event::Data(1, SessionEvent::Chunk(50)));
    assert_eq!(
        b1,
        vec![
            Action::Report(Status::Downloading),
            Action::Progress { request: 1, event: ProgressEvent::Bytes(50) },
        ]
    );
    all.extend(b1);
    let b2 = batch.step(&Event::Data(1, SessionEvent::Closed));
    assert_eq!(
        b2,
        vec![
            Action::Progress { request: 1, event: ProgressEvent::End },
            Action::Report(Status::Finished),
        ]
    );
    all.extend(b2);
    assert!(!batch.is_finished());
    let a2 = batch.step(&Event::Data(0, SessionEvent::Chunk(40)));
    assert_eq!(a2, vec![Action::Progress { request: 0, event: ProgressEvent::Bytes(100) }]);
    all.extend(a2);
    let a3 = batch.step(&Event::Data(0, SessionEvent::Closed));
    assert_eq!(
        a3,
        vec![
            Action::Progress { request: 0, event: ProgressEvent::End },
            Action::Report(Status::Finished),
            Action::Report(Status::AllFinished),
        ]
    );
    all.extend(a3);

    assert!(batch.is_finished());
    assert_eq!(batch.outcome(0), Some(Outcome::Success));
    assert_eq!(batch.outcome(1), Some(Outcome::Success));
    assert_eq!(batch.session(0).unwrap().received(), 100);
    assert_eq!(batch.session(1).unwrap().received(), 50);
    assert_eq!(last_words(&all), 1);
    assert_eq!(all.last(), Some(&Action::Report(Status::AllFinished)));

    assert_eq!(batch.step(&Event::Data(0, SessionEvent::Closed)), vec![]);
    assert_eq!(batch.step(&Event::Cancelled), vec![]);
    assert_eq!(batch.step(&Event::Disconnected), vec![]);
    assert_eq!(batch.step(&Event::RequestTimedOut(0)), vec![]);
    assert_eq!(batch.step(&notice("Bot1", "a.mkv", 1, 2, 100)), vec![]);
}

#[test]
fn silent_bot_times_out_and_the_other_goes_on() {
    let (mut batch, first) = Orchestrator::new(
        b"me",
        b"nibl",
        vec![request("Silent", 1, "a.mkv", 100), request("Bot2", 7, "b.mkv", 50)],
    );
    let mut all: Vec<Action> = first;
    all.extend(batch.step(&notice("Bot2", "b.mkv", 1, 6000, 50)));
    let timed_out = batch.step(&Event::RequestTimedOut(0));
    assert_eq!(
        timed_out,
        vec![
            Action::Progress { request: 0, event: ProgressEvent::End },
            Action::Report(Status::Failed(Failure::RequestTimeout)),
        ]
    );
    all.extend(timed_out);
    assert_eq!(batch.outcome(0), Some(Outcome::Failed(Failure::RequestTimeout)));
    assert_eq!(batch.outcome(1), None);
    assert_eq!(batch.session(1).unwrap().received(), 0);
    assert!(!batch.is_finished());

    assert_eq!(batch.step(&Event::RequestTimedOut(1)), vec![]);
    assert_eq!(batch.outcome(1), None);

    all.extend(batch.step(&Event::Data(1, SessionEvent::Chunk(50))));
    let end = batch.step(&Event::Data(1, SessionEvent::Closed));
    assert_eq!(
        end,
        vec![
            Action::Progress { request: 1, event: ProgressEvent::End },
            Action::Report(Status::Finished),
            Action::Report(Status::AllFinished),
        ]
    );
    all.extend(end);
    assert_eq!(batch.outcome(1), Some(Outcome::Success));
    assert!(batch.is_finished());
    assert_eq!(last_words(&all), 1);
}

#[test]
fn late_notice_after_a_timeout_is_ignored() {
    let (mut batch, _) = Orchestrator::new(b"me", b"nibl", vec![request("Bot1", 1, "a.mkv", 100)]);
    let end = batch.step(&Event::RequestTimedOut(0));
    assert_eq!(last_words(&end), 1);
    assert_eq!(batch.step(&notice("Bot1", "a.mkv", 1, 2, 100)), vec![]);
    assert_eq!(batch.session(0), None);
}

#[test]
fn notices_that_answer_nothing_are_ignored() {
    let (mut batch, _) = Orchestrator::new(b"me", b"nibl", vec![request("Bot1", 1, "a.mkv", 100)]);
    assert_eq!(batch.step(&notice("Bot2", "a.mkv", 1, 2, 100)), vec![]);
    assert_eq!(batch.step(&notice("Bot1", "other.mkv", 1, 2, 100)), vec![]);
    let to_someone_else = Event::Message(
        parse_message(b":Bot1!b@h PRIVMSG you :\x01DCC SEND a.mkv 1 2 100\x01").unwrap(),
    );
    assert_eq!(batch.step(&to_someone_else), vec![]);
    let not_ctcp =
        Event::Message(parse_message(b":Bot1!b@h PRIVMSG me :DCC SEND a.mkv 1 2 100").unwrap());
    assert_eq!(batch.step(&not_ctcp), vec![]);
    let as_notice = Event::Message(
        parse_message(b":Bot1!b@h NOTICE me :\x01DCC SEND a.mkv 1 2 100\x01").unwrap(),
    );
    assert_eq!(batch.step(&as_notice), vec![]);
    let malformed =
        Event::Message(parse_message(b":Bot1!b@h PRIVMSG me :\x01DCC SEND a.mkv 1 2\x01").unwrap());
    assert_eq!(batch.step(&malformed), vec![]);
    assert_eq!(batch.session(0), None);
    assert_eq!(batch.outcome(0), None);
}

#[test]
fn second_notice_for_the_same_file_is_ignored() {
    let (mut batch, _) = Orchestrator::new(b"me", b"nibl", vec![request("Bot1", 1, "a.mkv", 100)]);
    assert_eq!(batch.step(&notice("Bot1", "a.mkv", 1, 2, 100)).len(), 2);
    assert_eq!(batch.step(&notice("Bot1", "a.mkv", 9, 9, 100)), vec![]);
    assert_eq!(batch.session(0).unwrap().address(), 1);
}

#[test]
fn two_requests_for_one_file_take_two_notices() {
    let mut second = request("Bot1", 1, "a.mkv", 100);
    second.destination_dir = b"/elsewhere".to_vec();
    let (mut batch, _) =
        Orchestrator::new(b"me", b"nibl", vec![request("Bot1", 1, "a.mkv", 100), second]);
    let one = batch.step(&notice("Bot1", "a.mkv", 1, 2, 100));
    assert!(matches!(one[1], Action::Connect { request: 0, .. }));
    let two = batch.step(&notice("Bot1", "a.mkv", 3, 4, 100));
    assert_eq!(
        two[1],
        Action::Connect { request: 1, address: 3, port: 4, path: b"/elsewhere/a.mkv".to_vec() }
    );
}

#[test]
fn truncated_transfer_fails_alone() {
    let (mut batch, _) = Orchestrator::new(
        b"me",
        b"nibl",
        vec![request("Bot1", 1, "a.mkv", 100), request("Bot2", 2, "b.mkv", 100)],
    );
    batch.step(&notice("Bot1", "a.mkv", 1, 2, 100));
    batch.step(&notice("Bot2", "b.mkv", 1, 3, 100));
    batch.step(&Event::Data(0, SessionEvent::Chunk(99)));
    let end = batch.step(&Event::Data(0, SessionEvent::Closed));
    assert_eq!(
        end,
        vec![
            Action::Progress { request: 0, event: ProgressEvent::End },
            Action::Abandon { request: 0 },
            Action::Report(Status::Failed(Failure::SizeMismatch)),
        ]
    );
    assert_eq!(batch.outcome(0), Some(Outcome::Failed(Failure::SizeMismatch)));
    assert_eq!(batch.outcome(1), None);
}

#[test]
fn each_data_failure_is_reported() {
    let cases = [
        (SessionEvent::ConnectFailed, Failure::DataConnectFailed),
        (SessionEvent::WriteFailed, Failure::IoWriteFailed),
        (SessionEvent::Chunk(101), Failure::SizeMismatch),
    ];
    for (event, failure) in cases {
        let (mut batch, _) =
            Orchestrator::new(b"me", b"nibl", vec![request("Bot1", 1, "a.mkv", 100)]);
        batch.step(&notice("Bot1", "a.mkv", 1, 2, 100));
        assert_eq!(
            batch.step(&Event::Data(0, event)),
            vec![
                Action::Progress { request: 0, event: ProgressEvent::End },
                Action::Abandon { request: 0 },
                Action::Report(Status::Failed(failure)),
                Action::Report(Status::AllFinished),
            ]
        );
        assert_eq!(batch.outcome(0), Some(Outcome::Failed(failure)));
    }
}

#[test]
fn data_for_what_has_no_transfer_is_ignored() {
    let (mut batch, _) = Orchestrator::new(b"me", b"nibl", vec![request("Bot1", 1, "a.mkv", 100)]);
    assert_eq!(batch.step(&Event::Data(0, SessionEvent::Chunk(5))), vec![]);
    assert_eq!(batch.step(&Event::Data(1, SessionEvent::Chunk(5))), vec![]);
    assert_eq!(batch.step(&Event::RequestTimedOut(7)), vec![]);
    assert_eq!(batch.outcome(0), None);
}

#[test]
fn lost_connection_ends_what_waits() {
    let (mut batch, _) = Orchestrator::new(
        b"me",
        b"nibl",
        vec![
            request("Bot1", 1, "a.mkv", 100),
            request("Bot2", 2, "b.mkv", 100),
            request("Bot3", 3, "c.mkv", 100),
        ],
    );
    batch.step(&notice("Bot2", "b.mkv", 1, 3, 100));
    assert_eq!(
        batch.step(&Event::Disconnected),
        vec![
            Action::Progress { request: 0, event: ProgressEvent::End },
            Action::Report(Status::Failed(Failure::RequestTimeout)),
            Action::Progress { request: 2, event: ProgressEvent::End },
            Action::Report(Status::Failed(Failure::RequestTimeout)),
        ]
    );
    assert_eq!(batch.outcome(0), Some(Outcome::Failed(Failure::RequestTimeout)));
    assert_eq!(batch.outcome(1), None);
    assert_eq!(batch.outcome(2), Some(Outcome::Failed(Failure::RequestTimeout)));
    batch.step(&Event::Data(1, SessionEvent::Chunk(100)));
    let end = batch.step(&Event::Data(1, SessionEvent::Closed));
    assert_eq!(last_words(&end), 1);
    assert_eq!(batch.outcome(1), Some(Outcome::Success));
}

#[test]
fn cancel_ends_everything_that_has_not_ended() {
    let (mut batch, _) = Orchestrator::new(
        b"me",
        b"nibl",
        vec![
            request("Bot1", 1, "a.mkv", 100),
            request("Bot2", 2, "b.mkv", 100),
            request("Bot3", 3, "c.mkv", 100),
        ],
    );
    batch.step(&notice("Bot2", "b.mkv", 1, 3, 100));
    batch.step(&Event::Data(1, SessionEvent::Chunk(100)));
    batch.step(&notice("Bot3", "c.mkv", 1, 4, 100));
    batch.step(&Event::Data(2, SessionEvent::Chunk(100)));
    batch.step(&Event::Data(2, SessionEvent::Closed));
    assert_eq!(
        batch.step(&Event::Cancelled),
        vec![
            Action::Progress { request: 0, event: ProgressEvent::End },
            Action::Report(Status::Failed(Failure::Cancelled)),
            Action::Progress { request: 1, event: ProgressEvent::End },
            Action::Abandon { request: 1 },
            Action::Report(Status::Failed(Failure::Cancelled)),
            Action::Report(Status::AllFinished),
        ]
    );
    assert_eq!(batch.outcome(0), Some(Outcome::Failed(Failure::Cancelled)));
    assert_eq!(batch.outcome(1), Some(Outcome::Failed(Failure::Cancelled)));
    assert_eq!(batch.session(1).unwrap().outcome(), Some(Outcome::Failed(Failure::Cancelled)));
    assert_eq!(batch.outcome(2), Some(Outcome::Success));
    assert!(batch.is_finished());
}
