use anime_cli::irc::{
    encode_message, join, parse_message, read_ctcp, receive, registration, send_private_message,
    sender_nick, split_line, take_line, wire, Incoming, Message,
};

fn message(prefix: Option<&str>, command: &str, params: &[&str]) -> Message {
    Message {
        prefix: prefix.map(|p| p.as_bytes().to_vec()),
        command: command.as_bytes().to_vec(),
        params: params.iter().map(|p| p.as_bytes().to_vec()).collect(),
    }
}

#[test]
fn line_with_prefix_and_trailing() {
    assert_eq!(
        parse_message(b":nick!user@host PRIVMSG #nibl :hello there"),
        Some(message(Some("nick!user@host"), "PRIVMSG", &["#nibl", "hello there"]))
    );
}

#[test]
fn line_without_prefix() {
    assert_eq!(
        parse_message(b"PING :irc.rizon.net"),
        Some(message(None, "PING", &["irc.rizon.net"]))
    );
    assert_eq!(parse_message(b"QUIT"), Some(message(None, "QUIT", &[])));
}

#[test]
fn numeric_reply_with_many_parameters() {
    assert_eq!(
        parse_message(b":server 353 me = #nibl :a b c"),
        Some(message(Some("server"), "353", &["me", "=", "#nibl", "a b c"]))
    );
}

#[test]
fn runs_of_spaces_separate_once() {
    assert_eq!(
        parse_message(b":p   CMD   a    b  "),
        Some(message(Some("p"), "CMD", &["a", "b"]))
    );
}

#[test]
fn empty_trailing_parameter() {
    assert_eq!(parse_message(b"TOPIC #c :"), Some(message(None, "TOPIC", &["#c", ""])));
}

#[test]
fn lines_that_are_no_message() {
    assert_eq!(parse_message(b""), None);
    assert_eq!(parse_message(b"   "), None);
    assert_eq!(parse_message(b":prefixonly"), None);
    assert_eq!(parse_message(b": CMD"), None);
}

#[test]
fn message_is_written() {
    assert_eq!(
        encode_message(&message(Some("a!b@c"), "PRIVMSG", &["me", "two words"])),
        b":a!b@c PRIVMSG me :two words".to_vec()
    );
    assert_eq!(encode_message(&message(None, "QUIT", &[])), b"QUIT".to_vec());
    assert_eq!(
        wire(&message(None, "PONG", &["token"])),
        b"PONG :token\r\n".to_vec()
    );
}

#[test]
fn written_message_reads_back() {
    let all = [
        message(None, "NICK", &["me"]),
        message(Some("srv"), "001", &["me", "Welcome to the network"]),
        message(Some("a!b@c"), "PRIVMSG", &["me", ":starts with a colon"]),
        message(None, "USER", &["me", "0", "*", ""]),
    ];
    for m in all {
        assert_eq!(parse_message(&encode_message(&m)), Some(m));
    }
}

#[test]
fn registration_lines() {
    assert_eq!(
        registration(b"randomRustacean"),
        vec![
            b"NICK :randomRustacean\r\n".to_vec(),
            b"USER randomRustacean 0 * :randomRustacean\r\n".to_vec(),
        ]
    );
}

#[test]
fn join_adds_the_hash() {
    assert_eq!(join(b"nibl"), b"JOIN :#nibl\r\n".to_vec());
    assert_eq!(join(b"#nibl"), b"JOIN :#nibl\r\n".to_vec());
    assert_eq!(join(b"&local"), b"JOIN :&local\r\n".to_vec());
}

#[test]
fn private_message_line() {
    assert_eq!(
        send_private_message(b"XDCC|Bot1", b"XDCC SEND 42"),
        b"PRIVMSG XDCC|Bot1 :XDCC SEND 42\r\n".to_vec()
    );
}

#[test]
fn ping_is_answered() {
    assert_eq!(
        receive(b"PING :irc.rizon.net"),
        Incoming::Answer(b"PONG :irc.rizon.net\r\n".to_vec())
    );
    assert_eq!(
        receive(b":srv PING a b"),
        Incoming::Answer(b"PONG a :b\r\n".to_vec())
    );
}

#[test]
fn other_lines_are_handed_on() {
    assert_eq!(
        receive(b":a!b@c NOTICE me :hi"),
        Incoming::Deliver(message(Some("a!b@c"), "NOTICE", &["me", "hi"]))
    );
    assert_eq!(receive(b""), Incoming::Discard);
}

#[test]
fn lines_are_framed() {
    assert_eq!(split_line(b"PING :x\r\nNOTICE"), Some((7, 9)));
    assert_eq!(split_line(b"PING :x\nNOTICE"), Some((7, 8)));
    assert_eq!(split_line(b"\r\n"), Some((0, 2)));
    assert_eq!(split_line(b"\n"), Some((0, 1)));
    assert_eq!(split_line(b"PING :x\r"), None);
    assert_eq!(split_line(b""), None);
}

#[test]
fn nickname_of_a_prefix() {
    assert_eq!(sender_nick(b"XDCC|Bot1!~bot@host.example"), b"XDCC|Bot1".to_vec());
    assert_eq!(sender_nick(b"nick@host"), b"nick".to_vec());
    assert_eq!(sender_nick(b"irc.rizon.net"), b"irc.rizon.net".to_vec());
    assert_eq!(sender_nick(b""), b"".to_vec());
}

#[test]
fn ctcp_payload_is_unwrapped() {
    assert_eq!(read_ctcp(b"\x01DCC SEND f 1 2 3\x01"), Some(b"DCC SEND f 1 2 3".to_vec()));
    assert_eq!(read_ctcp(b"\x01\x01"), Some(b"".to_vec()));
    assert_eq!(read_ctcp(b"\x01"), None);
    assert_eq!(read_ctcp(b"DCC SEND f 1 2 3"), None);
    assert_eq!(read_ctcp(b"\x01VERSION"), None);
}

#[test]
fn lines_are_taken_one_by_one() {
    let mut pending = b"PING :x\r\nNOTICE me :hi\nrest".to_vec();
    assert_eq!(take_line(&mut pending), Some(b"PING :x".to_vec()));
    assert_eq!(pending, b"NOTICE me :hi\nrest".to_vec());
    assert_eq!(take_line(&mut pending), Some(b"NOTICE me :hi".to_vec()));
    assert_eq!(take_line(&mut pending), None);
    assert_eq!(pending, b"rest".to_vec());
}
