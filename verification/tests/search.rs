use anime_cli::irc::{parse_message, Message};
use anime_cli::search::{
    encode_reply, format_size, parse_reply, parse_size, Offer, Search, SearchError, SearchEvent,
    SearchStep,
};

fn offer(bot: &str, pack_number: u32, filename: &str, size_bytes: u64) -> Offer {
    Offer {
        bot: bot.as_bytes().to_vec(),
        pack_number,
        filename: filename.as_bytes().to_vec(),
        size_bytes,
    }
}

fn incoming(line: &[u8]) -> SearchEvent {
    let m: Message = parse_message(line).unwrap();
    SearchEvent::Message(m)
}

#[test]
fn reply_line_gives_every_field() {
    let parsed = parse_reply(b"XDCC|Bot1 42 350MiB Show.Name.E01.720p.mkv");
    assert_eq!(
        parsed,
        Ok(offer("XDCC|Bot1", 42, "Show.Name.E01.720p.mkv", 350 * 1024 * 1024))
    );
}

#[test]
fn reply_line_with_padding_and_spaces_in_the_name() {
    assert_eq!(
        parse_reply(b"  Bot   7  1KiB   my file.mkv "),
        Ok(offer("Bot", 7, "my file.mkv ", 1024))
    );
}

#[test]
fn reply_line_without_a_field_is_malformed() {
    assert_eq!(
        parse_reply(b"XDCC|Bot1 42 Show.Name.E01.720p.mkv"),
        Err(SearchError::MalformedReply)
    );
    assert_eq!(parse_reply(b"XDCC|Bot1 42 350MiB"), Err(SearchError::MalformedReply));
    assert_eq!(parse_reply(b"XDCC|Bot1 42 350MiB   "), Err(SearchError::MalformedReply));
    assert_eq!(parse_reply(b""), Err(SearchError::MalformedReply));
}

#[test]
fn reply_line_with_a_size_that_is_no_number_is_malformed() {
    assert_eq!(parse_reply(b"Bot 42 bigMiB file.mkv"), Err(SearchError::MalformedReply));
    assert_eq!(parse_reply(b"Bot 42 MiB file.mkv"), Err(SearchError::MalformedReply));
    assert_eq!(parse_reply(b"Bot 42 350 file.mkv"), Err(SearchError::MalformedReply));
    assert_eq!(parse_reply(b"Bot 42 350XB file.mkv"), Err(SearchError::MalformedReply));
    assert_eq!(
        parse_reply(b"Bot 42 99999999999TiB file.mkv"),
        Err(SearchError::MalformedReply)
    );
}

#[test]
fn reply_line_with_a_pack_that_is_no_positive_number_is_malformed() {
    assert_eq!(parse_reply(b"Bot 0 350MiB file.mkv"), Err(SearchError::MalformedReply));
    assert_eq!(parse_reply(b"Bot #42 350MiB file.mkv"), Err(SearchError::MalformedReply));
    assert_eq!(parse_reply(b"Bot 4294967296 350MiB file.mkv"), Err(SearchError::MalformedReply));
    assert_eq!(
        parse_reply(b"Bot 4294967295 350MiB file.mkv"),
        Ok(offer("Bot", 4294967295, "file.mkv", 350 * 1024 * 1024))
    );
}

#[test]
fn size_units() {
    assert_eq!(parse_size(b"123MiB"), Some(123 * 1024 * 1024));
    assert_eq!(parse_size(b"123M"), Some(123 * 1024 * 1024));
    assert_eq!(parse_size(b"2KiB"), Some(2048));
    assert_eq!(parse_size(b"2K"), Some(2048));
    assert_eq!(parse_size(b"1GiB"), Some(1024 * 1024 * 1024));
    assert_eq!(parse_size(b"1G"), Some(1024 * 1024 * 1024));
    assert_eq!(parse_size(b"3TiB"), Some(3 * 1024 * 1024 * 1024 * 1024));
    assert_eq!(parse_size(b"3T"), Some(3 * 1024 * 1024 * 1024 * 1024));
    assert_eq!(parse_size(b"7B"), Some(7));
    assert_eq!(parse_size(b"0B"), Some(0));
    assert_eq!(parse_size(b"18446744073709551615B"), Some(u64::MAX));
}

#[test]
fn sizes_that_are_none() {
    assert_eq!(parse_size(b""), None);
    assert_eq!(parse_size(b"MiB"), None);
    assert_eq!(parse_size(b"12"), None);
    assert_eq!(parse_size(b"12 MiB"), None);
    assert_eq!(parse_size(b"12mib"), None);
    assert_eq!(parse_size(b"1.5GiB"), None);
    assert_eq!(parse_size(b"18446744073709551616B"), None);
    assert_eq!(parse_size(b"16777216TiB"), None);
}

#[test]
fn size_is_written_in_the_largest_unit() {
    assert_eq!(format_size(350 * 1024 * 1024), b"350MiB".to_vec());
    assert_eq!(format_size(0), b"0B".to_vec());
    assert_eq!(format_size(1023), b"1023B".to_vec());
    assert_eq!(format_size(1024), b"1KiB".to_vec());
    assert_eq!(format_size(1024 * 1024 * 1024), b"1GiB".to_vec());
    assert_eq!(format_size(5 * 1024 * 1024 * 1024 * 1024), b"5TiB".to_vec());
    assert_eq!(format_size(1025), b"1025B".to_vec());
}

#[test]
fn written_size_reads_back() {
    for n in [0u64, 1, 1023, 1024, 1025, 1 << 20, (1 << 20) + 1, 1 << 30, 1 << 40, u64::MAX] {
        assert_eq!(parse_size(&format_size(n)), Some(n));
    }
}

#[test]
fn written_reply_reads_back() {
    let all = [
        offer("Bot", 7, "a file with spaces.mkv", 1025),
        offer("XDCC|Bot1", 42, "Show.Name.E01.720p.mkv", 350 * 1024 * 1024),
        offer("b", 1, "x", 0),
        offer("b", u32::MAX, "x", u64::MAX),
    ];
    for o in all {
        assert_eq!(parse_reply(&encode_reply(&o)), Ok(o));
    }
}

#[test]
fn reply_is_written() {
    assert_eq!(
        encode_reply(&offer("XDCC|Bot1", 42, "Show.Name.E01.720p.mkv", 350 * 1024 * 1024)),
        b"XDCC|Bot1 42 350MiB Show.Name.E01.720p.mkv".to_vec()
    );
}

#[test]
fn question_carries_query_and_index() {
    let search = Search::new(b"Lister", b"me");
    assert_eq!(
        search.request(b"Show Name 720", Some(1)),
        b"PRIVMSG Lister :Show Name 720 1\r\n".to_vec()
    );
    assert_eq!(
        search.request(b"Show Name 720", None),
        b"PRIVMSG Lister :Show Name 720\r\n".to_vec()
    );
}

#[test]
fn query_with_index_finds_the_offer() {
    let search = Search::new(b"Lister", b"me");
    assert_eq!(
        search.request(b"Show Name 720", Some(1)),
        b"PRIVMSG Lister :Show Name 720 1\r\n".to_vec()
    );
    let reply = incoming(b":Lister!l@host PRIVMSG me :XDCC|Bot1 42 350MiB Show.Name.E01.720p.mkv");
    assert_eq!(
        search.step(&reply),
        SearchStep::Found(offer("XDCC|Bot1", 42, "Show.Name.E01.720p.mkv", 350 * 1024 * 1024))
    );
}

#[test]
fn other_traffic_is_ignored() {
    let search = Search::new(b"Lister", b"me");
    assert_eq!(
        search.step(&incoming(b":someone!s@host PRIVMSG me :Bot 1 1MiB file.mkv")),
        SearchStep::Waiting
    );
    assert_eq!(
        search.step(&incoming(b":Lister!l@host PRIVMSG #nibl :Bot 1 1MiB file.mkv")),
        SearchStep::Waiting
    );
    assert_eq!(
        search.step(&incoming(b":Lister!l@host JOIN :#nibl")),
        SearchStep::Waiting
    );
    assert_eq!(search.step(&incoming(b":srv 372 me :- motd")), SearchStep::Waiting);
    assert_eq!(search.step(&incoming(b"PRIVMSG me :Bot 1 1MiB file.mkv")), SearchStep::Waiting);
}

#[test]
fn notice_from_the_listing_bot_is_an_answer() {
    let search = Search::new(b"Lister", b"me");
    assert_eq!(
        search.step(&incoming(b":Lister NOTICE me :Bot 1 1MiB file.mkv")),
        SearchStep::Found(offer("Bot", 1, "file.mkv", 1024 * 1024))
    );
}

#[test]
fn malformed_answer_ends_the_search() {
    let search = Search::new(b"Lister", b"me");
    assert_eq!(
        search.step(&incoming(b":Lister!l@host PRIVMSG me :nothing found")),
        SearchStep::Failed(SearchError::MalformedReply)
    );
}

#[test]
fn silence_ends_the_search() {
    let search = Search::new(b"Lister", b"me");
    assert_eq!(search.step(&SearchEvent::TimedOut), SearchStep::Failed(SearchError::NoResponse));
    assert_eq!(
        search.step(&SearchEvent::Disconnected),
        SearchStep::Failed(SearchError::NoResponse)
    );
}
