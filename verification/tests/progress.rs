use anime_cli::progress::{ends_bar, update_bar, update_status_bar, BarCommand, Status};
use anime_cli::session::{Failure, ProgressEvent};

fn label(text: &str) -> BarCommand {
    BarCommand::Label(text.to_string())
}

#[test]
fn status_texts() {
    assert_eq!(Status::AllFinished.text(), "Success");
    assert_eq!(Status::Finished.text(), "Episode Finished Downloading");
    assert_eq!(Status::Queued.text(), "Queued");
    assert_eq!(Status::Connecting.text(), "Connecting");
    assert_eq!(Status::Downloading.text(), "Downloading");
    assert_eq!(Status::Failed(Failure::RequestTimeout).text(), "Failed: the bot did not answer");
    assert_eq!(Status::Failed(Failure::DataConnectFailed).text(), "Failed: could not connect");
    assert_eq!(Status::Failed(Failure::SizeMismatch).text(), "Failed: size mismatch");
    assert_eq!(Status::Failed(Failure::IoWriteFailed).text(), "Failed: could not write");
    assert_eq!(Status::Failed(Failure::Collision).text(), "Failed: file name taken");
    assert_eq!(Status::Failed(Failure::Cancelled).text(), "Failed: cancelled");
}

#[test]
fn bar_follows_the_byte_count() {
    assert_eq!(update_bar(1), vec![BarCommand::Position(1)]);
    assert_eq!(update_bar(367001600), vec![BarCommand::Position(367001600)]);
    assert_eq!(update_bar(i64::MAX), vec![BarCommand::Position(i64::MAX as u64)]);
}

#[test]
fn bar_ends_on_what_is_not_positive() {
    assert_eq!(update_bar(0), vec![BarCommand::Finish]);
    assert_eq!(update_bar(-1), vec![BarCommand::Finish]);
    assert_eq!(update_bar(i64::MIN), vec![BarCommand::Finish]);
    assert!(ends_bar(&update_bar(0)));
    assert!(!ends_bar(&update_bar(5)));
}

#[test]
fn progress_events_drive_the_bar() {
    assert_eq!(update_bar(ProgressEvent::Bytes(60).to_channel()), vec![BarCommand::Position(60)]);
    assert_eq!(update_bar(ProgressEvent::End.to_channel()), vec![BarCommand::Finish]);
}

#[test]
fn status_bar_shows_every_text() {
    assert_eq!(
        update_status_bar("Connecting"),
        vec![BarCommand::Tick, label("Connecting ")]
    );
    assert_eq!(update_status_bar(""), vec![BarCommand::Tick, label(" ")]);
    assert_eq!(update_status_bar("success"), vec![BarCommand::Tick, label("success ")]);
}

#[test]
fn status_bar_counts_finished_episodes() {
    assert_eq!(
        update_status_bar("Episode Finished Downloading"),
        vec![BarCommand::Tick, BarCommand::Advance, label("Episode Finished Downloading ")]
    );
}

#[test]
fn status_bar_ends_on_the_last_word() {
    let commands = update_status_bar("Success");
    assert_eq!(commands, vec![label("Success "), BarCommand::Tick, BarCommand::Finish]);
    assert!(ends_bar(&commands));
    assert!(!ends_bar(&update_status_bar("Episode Finished Downloading")));
    assert!(!ends_bar(&vec![]));
}

#[test]
fn only_the_last_word_ends_the_status_bar() {
    let all = [
        Status::Queued,
        Status::Connecting,
        Status::Downloading,
        Status::Finished,
        Status::Failed(Failure::RequestTimeout),
        Status::Failed(Failure::DataConnectFailed),
        Status::Failed(Failure::SizeMismatch),
        Status::Failed(Failure::IoWriteFailed),
        Status::Failed(Failure::Collision),
        Status::Failed(Failure::Cancelled),
        Status::AllFinished,
    ];
    for status in all {
        let commands = update_status_bar(status.text());
        assert_eq!(ends_bar(&commands), status == Status::AllFinished);
        assert_eq!(commands.contains(&BarCommand::Advance), status == Status::Finished);
    }
}
