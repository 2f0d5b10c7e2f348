//! The lines of the control connection: what a line of an IRC server says, and
//! the lines a client sends.
//!
//! A line is `[":" prefix SPACE] command {SPACE parameter} [SPACE ":" trailing]`,
//! without the line break that ends it. The last parameter may hold spaces when
//! a colon introduces it.

use vstd::prelude::*;
use vstd::slice::slice_to_vec;
use crate::text::{
    append, ascii, ascii_bytes, bytes_eq, copy_range, is_word, lemma_skip_spaces,
    lemma_skip_spaces_is, lemma_word_end, lemma_word_end_is, literal, scan_spaces, scan_word,
    skip_spaces, word_end, SPACE,
};

verus! {

/// The byte that introduces a prefix and a trailing parameter.
pub const COLON: u8 = 0x3a;

/// Carriage return, the first byte of a line break.
pub const CR: u8 = 0x0d;

/// Line feed, the byte that ends a line.
pub const LF: u8 = 0x0a;

/// The byte that a channel's name begins with.
pub const HASH: u8 = 0x23;

/// The byte that a local channel's name begins with.
pub const AMPERSAND: u8 = 0x26;

/// The byte between nickname and user name in a prefix.
pub const BANG: u8 = 0x21;

/// The byte before the host name in a prefix.
pub const AT: u8 = 0x40;

/// The byte that encloses a CTCP message.
pub const CTCP_DELIMITER: u8 = 0x01;

/// What the client does with a line that came in.
#[derive(Debug, Clone, PartialEq, Eq)]
pub enum Incoming {
    /// The line was a `PING`: send this line back. Nobody else hears of it.
    Answer(Vec<u8>),
    /// The line is a message for whoever listens.
    Deliver(Message),
    /// The line is no message.
    Discard,
}

/// One message of the control connection.
#[derive(Debug, Clone, PartialEq, Eq)]
pub struct Message {
    /// Who sent it, where the line says so.
    pub prefix: Option<Vec<u8>>,
    /// The command word or the three digits of a reply.
    pub command: Vec<u8>,
    /// The parameters, in order.
    pub params: Vec<Vec<u8>>,
}

/// What a `Message` holds.
pub struct MessageView {
    pub prefix: Option<Seq<u8>>,
    pub command: Seq<u8>,
    pub params: Seq<Seq<u8>>,
}

/// The contents of each of a list of byte strings.
pub open spec fn views(list: Seq<Vec<u8>>) -> Seq<Seq<u8>> {
    Seq::new(list.len(), |i: int| list[i]@)
}

impl View for Message {
    type V = MessageView;

    open spec fn view(&self) -> MessageView {
        MessageView {
            prefix: match self.prefix {
                Some(p) => Some(p@),
                None => None,
            },
            command: self.command@,
            params: views(self.params@),
        }
    }
}

/// The parameters that the line `s` holds from `from` on.
pub open spec fn params_from(s: Seq<u8>, from: int) -> Seq<Seq<u8>>
    decreases s.len() - from,
{
    let start = skip_spaces(s, from);
    if !(0 <= from && start < s.len()) {
        Seq::empty()
    } else if s[start] == COLON {
        seq![s.subrange(start + 1, s.len() as int)]
    } else {
        proof {
            lemma_skip_spaces(s, from);
            lemma_word_end(s, start);
        }
        seq![s.subrange(start, word_end(s, start))] + params_from(s, word_end(s, start))
    }
}

/// What the line `s` says, if it is a message: a command, and a prefix that is
/// not empty where the line begins with a colon.
pub open spec fn message_of(s: Seq<u8>) -> Option<MessageView> {
    let tagged = s.len() > 0 && s[0] == COLON;
    let prefix_end = if tagged { word_end(s, 1) } else { 0 };
    let start = skip_spaces(s, prefix_end);
    let end = word_end(s, start);
    if start < s.len() && (tagged ==> prefix_end > 1) {
        Some(
            MessageView {
                prefix: if tagged { Some(s.subrange(1, prefix_end)) } else { None },
                command: s.subrange(start, end),
                params: params_from(s, end),
            },
        )
    } else {
        None
    }
}

/// Whether `p` can stand as a parameter before the last: a word that does not
/// begin with a colon.
pub open spec fn is_middle(p: Seq<u8>) -> bool {
    is_word(p) && p[0] != COLON
}

/// Whether a line can carry `m` and be read back: prefix and command are words,
/// and so is every parameter but the last, none of them beginning with a colon.
pub open spec fn encodable(m: MessageView) -> bool {
    &&& m.prefix matches Some(p) ==> is_word(p)
    &&& is_middle(m.command)
    &&& forall|i: int| 0 <= i < m.params.len() - 1 ==> is_middle(#[trigger] m.params[i])
}

/// The parameters as a line carries them: a space before each, and a colon
/// before the last.
pub open spec fn params_text(params: Seq<Seq<u8>>) -> Seq<u8>
    decreases params.len(),
{
    if params.len() == 0 {
        Seq::empty()
    } else if params.len() == 1 {
        seq![SPACE, COLON] + params[0]
    } else {
        seq![SPACE] + params[0] + params_text(params.skip(1))
    }
}

/// The line that carries `m`.
pub open spec fn line_of(m: MessageView) -> Seq<u8> {
    let head = match m.prefix {
        Some(p) => seq![COLON] + p + seq![SPACE],
        None => Seq::empty(),
    };
    head + m.command + params_text(m.params)
}

/// The line that carries `m` as it goes over the wire, with its line break.
pub open spec fn wire_line(m: MessageView) -> Seq<u8> {
    line_of(m) + seq![CR, LF]
}

/// The message that takes the nickname `nickname`.
pub open spec fn nick_message(nickname: Seq<u8>) -> MessageView {
    MessageView { prefix: None, command: ascii("NICK"@), params: seq![nickname] }
}

/// The message that registers a user under `nickname`, with no mode set.
pub open spec fn user_message(nickname: Seq<u8>) -> MessageView {
    MessageView {
        prefix: None,
        command: ascii("USER"@),
        params: seq![nickname, ascii("0"@), ascii("*"@), nickname],
    }
}

/// The name of a channel as the server wants it: with `#` in front, unless it
/// already begins with `#` or `&`.
pub open spec fn channel_name(channel: Seq<u8>) -> Seq<u8> {
    if channel.len() > 0 && (channel[0] == HASH || channel[0] == AMPERSAND) {
        channel
    } else {
        seq![HASH] + channel
    }
}

/// The message that joins `channel`.
pub open spec fn join_message(channel: Seq<u8>) -> MessageView {
    MessageView { prefix: None, command: ascii("JOIN"@), params: seq![channel_name(channel)] }
}

/// The message that says `text` to `target` alone.
pub open spec fn private_message(target: Seq<u8>, text: Seq<u8>) -> MessageView {
    MessageView { prefix: None, command: ascii("PRIVMSG"@), params: seq![target, text] }
}

/// The answer to a `PING` that came with `params`.
pub open spec fn pong_message(params: Seq<Seq<u8>>) -> MessageView {
    MessageView { prefix: None, command: ascii("PONG"@), params }
}

/// Where the nickname in a prefix ends: at the first `!` or `@` at or after
/// `from`, or at the end of the prefix.
pub open spec fn nick_end(prefix: Seq<u8>, from: int) -> int
    decreases prefix.len() - from,
{
    if 0 <= from < prefix.len() && prefix[from] != BANG && prefix[from] != AT {
        nick_end(prefix, from + 1)
    } else {
        from
    }
}

/// The nickname in the prefix `nick!user@host`: what stands before the first
/// `!` or `@`.
pub open spec fn nick_of(prefix: Seq<u8>) -> Seq<u8> {
    prefix.take(nick_end(prefix, 0))
}

/// What a CTCP message carries: the text between two delimiters.
pub open spec fn ctcp_payload(text: Seq<u8>) -> Option<Seq<u8>> {
    if text.len() >= 2 && text[0] == CTCP_DELIMITER && text.last() == CTCP_DELIMITER {
        Some(text.subrange(1, text.len() - 1))
    } else {
        None
    }
}

/// Whether the first line feed of `s` is at `at`.
pub open spec fn first_line_feed(s: Seq<u8>, at: int) -> bool {
    &&& 0 <= at < s.len()
    &&& s[at] == LF
    &&& forall|k: int| 0 <= k < at ==> s[k] != LF
}

/// Reads the parameters of `line` from `from` on.
fn parse_params(line: &[u8], from: usize) -> (r: Vec<Vec<u8>>)
    requires
        from <= line.len(),
    ensures
        views(r@) == params_from(line@, from as int),
{
    let mut params: Vec<Vec<u8>> = Vec::new();
    let mut pos: usize = from;
    let mut done: bool = false;
    while !done
        invariant
            from <= pos <= line.len(),
            !done ==> views(params@) + params_from(line@, pos as int) == params_from(
                line@,
                from as int,
            ),
            done ==> views(params@) == params_from(line@, from as int),
        decreases line.len() - pos + if done { 0int } else { 1int },
    {
        let start: usize = scan_spaces(line, pos);
        let ghost before = views(params@);
        if start >= line.len() {
            done = true;
            proof {
                assert(before + Seq::<Seq<u8>>::empty() == before);
            }
        } else if line[start] == COLON {
            let rest = copy_range(line, start + 1, line.len());
            params.push(rest);
            done = true;
            proof {
                assert(views(params@) == before + seq![rest@]);
            }
        } else {
            let end: usize = scan_word(line, start);
            let word = copy_range(line, start, end);
            params.push(word);
            proof {
                lemma_skip_spaces(line@, pos as int);
                lemma_word_end(line@, start as int);
                let tail = params_from(line@, end as int);
                assert(views(params@) == before + seq![word@]);
                assert(before + (seq![word@] + tail) == (before + seq![word@]) + tail);
            }
            pos = end;
        }
    }
    params
}

/// Reads a line, without its line break, as a message.
pub fn parse_message(line: &[u8]) -> (r: Option<Message>)
    ensures
        match message_of(line@) {
            Some(m) => r matches Some(x) && x@ == m,
            None => r is None,
        },
{
    let tagged: bool = line.len() > 0 && line[0] == COLON;
    let prefix_end: usize = if tagged { scan_word(line, 1) } else { 0 };
    let start: usize = scan_spaces(line, prefix_end);
    if start >= line.len() || (tagged && prefix_end <= 1) {
        return None;
    }
    let end: usize = scan_word(line, start);
    let prefix: Option<Vec<u8>> = if tagged {
        Some(copy_range(line, 1, prefix_end))
    } else {
        None
    };
    let command = copy_range(line, start, end);
    let params = parse_params(line, end);
    Some(Message { prefix, command, params })
}

/// Writes the line that carries `m`, without a line break.
pub fn encode_message(m: &Message) -> (r: Vec<u8>)
    ensures
        r@ == line_of(m@),
{
    let mut line: Vec<u8> = Vec::new();
    match &m.prefix {
        Some(p) => {
            line.push(COLON);
            append(&mut line, p.as_slice());
            line.push(SPACE);
        },
        None => {},
    }
    append(&mut line, m.command.as_slice());
    let ghost params = views(m.params@);
    let count: usize = m.params.len();
    let mut i: usize = 0;
    assert(params.skip(0) == params);
    while i < count
        invariant
            0 <= i <= count,
            count == m.params.len(),
            params == views(m.params@),
            line@ + params_text(params.skip(i as int)) == line_of(m@),
        decreases count - i,
    {
        let ghost before = line@;
        let ghost rest = params.skip(i as int);
        line.push(SPACE);
        if i + 1 == count {
            line.push(COLON);
        }
        append(&mut line, m.params[i].as_slice());
        proof {
            assert(rest[0] == m.params[i as int]@);
            assert(rest.skip(1) == params.skip(i + 1));
            if i + 1 == count {
                assert(params_text(rest.skip(1)) == Seq::<u8>::empty());
                assert(line@ == before + (seq![SPACE, COLON] + rest[0]));
                assert(line@ + params_text(rest.skip(1)) == line@);
            } else {
                assert(line@ + params_text(rest.skip(1)) == before + (seq![SPACE] + rest[0]
                    + params_text(rest.skip(1))));
            }
        }
        i += 1;
    }
    assert(line@ + Seq::<u8>::empty() == line@);
    line
}

/// Writing the parameters and reading them back gives the parameters.
proof fn lemma_params_round_trip(s: Seq<u8>, from: int, params: Seq<Seq<u8>>)
    requires
        0 <= from <= s.len(),
        s.subrange(from, s.len() as int) == params_text(params),
        forall|i: int| 0 <= i < params.len() - 1 ==> is_middle(#[trigger] params[i]),
    ensures
        params_from(s, from) == params,
    decreases params.len(),
{
    let text = params_text(params);
    let sub = s.subrange(from, s.len() as int);
    assert(forall|j: int| 0 <= j < text.len() ==> s[from + j] == sub[j]);
    if params.len() == 0 {
        assert(params_from(s, from) == params);
    } else if params.len() == 1 {
        assert(text[0] == SPACE);
        assert(text[1] == COLON);
        lemma_skip_spaces_is(s, from, from + 1);
        assert(s.subrange(from + 2, s.len() as int) == sub.subrange(2, sub.len() as int));
        assert(sub.subrange(2, sub.len() as int) == params[0]);
        assert(params_from(s, from) == seq![params[0]]);
        assert(seq![params[0]] == params);
    } else {
        let first = params[0];
        let rest = params.skip(1);
        let tail = params_text(rest);
        assert(text == seq![SPACE] + first + tail);
        assert(rest.len() >= 1);
        assert(tail[0] == SPACE);
        assert(is_middle(first));
        let start = from + 1;
        let end = start + first.len();
        assert(text[0] == SPACE);
        assert(forall|k: int| 0 <= k < first.len() ==> text[1 + k] == first[k]);
        assert(text[first.len() as int + 1] == tail[0]);
        lemma_skip_spaces_is(s, from, start);
        assert forall|k: int| start <= k < end implies s[k] != SPACE by {
            assert(s[k] == text[k - from]);
            assert(text[k - from] == first[k - start]);
        }
        lemma_word_end_is(s, start, end);
        assert(s.subrange(start, end) == first);
        assert(s.subrange(end, s.len() as int) == sub.subrange(end - from, sub.len() as int));
        assert(sub.subrange(end - from, sub.len() as int) == tail);
        assert forall|i: int| 0 <= i < rest.len() - 1 implies is_middle(#[trigger] rest[i]) by {
            assert(rest[i] == params[i + 1]);
        }
        lemma_params_round_trip(s, end, rest);
        assert(s[start] == first[0]);
        assert(params_from(s, from) == seq![first] + rest);
        assert(seq![first] + rest == params);
    }
}

/// Writing a message and reading it back gives the message.
pub proof fn lemma_message_round_trip(m: MessageView)
    requires
        encodable(m),
    ensures
        message_of(line_of(m)) == Some(m),
{
    let s = line_of(m);
    let text = params_text(m.params);
    let head = match m.prefix {
        Some(p) => seq![COLON] + p + seq![SPACE],
        None => Seq::<u8>::empty(),
    };
    let start = head.len() as int;
    let end = start + m.command.len();
    assert(s == head + m.command + text);
    assert(forall|k: int| 0 <= k < m.command.len() ==> s[start + k] == m.command[k]);
    assert forall|k: int| start <= k < end implies s[k] != SPACE by {
        assert(s[k] == m.command[k - start]);
    }
    if text.len() > 0 {
        assert(text[0] == SPACE);
        assert(s[end] == text[0]);
    }
    lemma_word_end_is(s, start, end);
    assert(s[start] == m.command[0]);
    match m.prefix {
        Some(p) => {
            let prefix_end: int = p.len() as int + 1;
            assert(s[0] == COLON);
            assert forall|k: int| 1 <= k < prefix_end implies s[k] != SPACE by {
                assert(s[k] == p[k - 1]);
            }
            assert(s[prefix_end] == SPACE);
            lemma_word_end_is(s, 1, prefix_end);
            lemma_skip_spaces_is(s, prefix_end, start);
            assert(s.subrange(1, prefix_end) == p);
        },
        None => {
            assert(head.len() == 0);
            lemma_skip_spaces_is(s, 0, 0);
        },
    }
    assert(s.subrange(start, end) == m.command);
    assert(s.subrange(end, s.len() as int) == text);
    lemma_params_round_trip(s, end, m.params);
}

/// The line that carries `m` over the wire, with its line break.
pub fn wire(m: &Message) -> (r: Vec<u8>)
    ensures
        r@ == wire_line(m@),
{
    let mut line = encode_message(m);
    line.push(CR);
    line.push(LF);
    line
}

/// The lines that register a client under `nickname`, in the order in which
/// they are sent.
pub fn registration(nickname: &[u8]) -> (lines: Vec<Vec<u8>>)
    ensures
        lines.len() == 2,
        views(lines@) == seq![
            wire_line(nick_message(nickname@)),
            wire_line(user_message(nickname@)),
        ],
{
    proof {
        reveal_strlit("NICK");
        reveal_strlit("USER");
        reveal_strlit("0");
        reveal_strlit("*");
    }
    let nick = Message {
        prefix: None,
        command: literal("NICK"),
        params: vec![slice_to_vec(nickname)],
    };
    let user = Message {
        prefix: None,
        command: literal("USER"),
        params: vec![
            slice_to_vec(nickname),
            literal("0"),
            literal("*"),
            slice_to_vec(nickname),
        ],
    };
    assert(nick@.params == nick_message(nickname@).params);
    assert(user@.params == user_message(nickname@).params);
    let lines = vec![wire(&nick), wire(&user)];
    assert(views(lines@) == seq![
        wire_line(nick_message(nickname@)),
        wire_line(user_message(nickname@)),
    ]);
    lines
}

/// The line that joins `channel`.
pub fn join(channel: &[u8]) -> (line: Vec<u8>)
    ensures
        line@ == wire_line(join_message(channel@)),
{
    proof {
        reveal_strlit("JOIN");
    }
    let mut name: Vec<u8> = Vec::new();
    if !(channel.len() > 0 && (channel[0] == HASH || channel[0] == AMPERSAND)) {
        name.push(HASH);
    }
    append(&mut name, channel);
    assert(name@ == channel_name(channel@));
    let m = Message { prefix: None, command: literal("JOIN"), params: vec![name] };
    assert(m@.params == join_message(channel@).params);
    wire(&m)
}

/// The line that says `text` to `target` alone.
pub fn send_private_message(target: &[u8], text: &[u8]) -> (line: Vec<u8>)
    ensures
        line@ == wire_line(private_message(target@, text@)),
{
    proof {
        reveal_strlit("PRIVMSG");
    }
    let m = Message {
        prefix: None,
        command: literal("PRIVMSG"),
        params: vec![slice_to_vec(target), slice_to_vec(text)],
    };
    assert(m@.params == private_message(target@, text@).params);
    wire(&m)
}

/// Takes one line from the server, without its line break. A `PING` is
/// answered here; every other message is handed on.
pub fn receive(line: &[u8]) -> (r: Incoming)
    ensures
        match message_of(line@) {
            None => r is Discard,
            Some(m) => if m.command == ascii("PING"@) {
                r matches Incoming::Answer(l) && l@ == wire_line(pong_message(m.params))
            } else {
                r matches Incoming::Deliver(x) && x@ == m
            },
        },
{
    proof {
        reveal_strlit("PING");
        reveal_strlit("PONG");
    }
    match parse_message(line) {
        None => Incoming::Discard,
        Some(m) => {
            if bytes_eq(m.command.as_slice(), ascii_bytes("PING")) {
                let pong = Message {
                    prefix: None,
                    command: literal("PONG"),
                    params: m.params,
                };
                Incoming::Answer(wire(&pong))
            } else {
                Incoming::Deliver(m)
            }
        },
    }
}

/// Finds the first line in what has come in so far. Gives the length of the
/// line without its line break, and where the next line starts; `None` while
/// no line is complete. A carriage return before the line feed belongs to the
/// line break.
pub fn split_line(buffer: &[u8]) -> (r: Option<(usize, usize)>)
    ensures
        r is None <==> forall|k: int| 0 <= k < buffer@.len() ==> buffer@[k] != LF,
        r matches Some((end, next)) ==> {
            &&& first_line_feed(buffer@, next - 1)
            &&& end == if next >= 2 && buffer@[next - 2] == CR { next - 2 } else { next - 1 }
        },
{
    let mut i: usize = 0;
    while i < buffer.len()
        invariant
            0 <= i <= buffer.len(),
            forall|k: int| 0 <= k < i ==> buffer@[k] != LF,
        decreases buffer.len() - i,
    {
        if buffer[i] == LF {
            let end: usize = if i >= 1 && buffer[i - 1] == CR { i - 1 } else { i };
            return Some((end, i + 1));
        }
        i += 1;
    }
    None
}

/// Takes the first line out of what has come in so far, without its line
/// break, and leaves what follows it. Gives `None`, and leaves everything,
/// while no line is complete.
pub fn take_line(pending: &mut Vec<u8>) -> (r: Option<Vec<u8>>)
    ensures
        r is None <==> forall|k: int| 0 <= k < old(pending)@.len() ==> old(pending)@[k] != LF,
        r is None ==> final(pending)@ == old(pending)@,
        r matches Some(line) ==> exists|at: int|
            {
                &&& #[trigger] first_line_feed(old(pending)@, at)
                &&& final(pending)@ == old(pending)@.skip(at + 1)
                &&& line@ == if at >= 1 && old(pending)@[at - 1] == CR {
                    old(pending)@.take(at - 1)
                } else {
                    old(pending)@.take(at)
                }
            },
{
    match split_line(pending.as_slice()) {
        None => None,
        Some((end, next)) => {
            let line = copy_range(pending.as_slice(), 0, end);
            let rest = copy_range(pending.as_slice(), next, pending.len());
            proof {
                assert(first_line_feed(old(pending)@, next - 1));
                assert(old(pending)@.subrange(0, end as int) == old(pending)@.take(end as int));
                assert(old(pending)@.subrange(next as int, old(pending)@.len() as int) == old(
                    pending,
                )@.skip(next as int));
            }
            *pending = rest;
            Some(line)
        },
    }
}

/// The nickname of the sender named in `prefix`.
pub fn sender_nick(prefix: &[u8]) -> (r: Vec<u8>)
    ensures
        r@ == nick_of(prefix@),
{
    let mut i: usize = 0;
    while i < prefix.len() && prefix[i] != BANG && prefix[i] != AT
        invariant
            0 <= i <= prefix.len(),
            nick_end(prefix@, 0) == nick_end(prefix@, i as int),
        decreases prefix.len() - i,
    {
        i += 1;
    }
    copy_range(prefix, 0, i)
}

/// What a CTCP message carries, if `text` is one.
pub fn read_ctcp(text: &[u8]) -> (r: Option<Vec<u8>>)
    ensures
        match ctcp_payload(text@) {
            Some(p) => r matches Some(x) && x@ == p,
            None => r is None,
        },
{
    let n: usize = text.len();
    if n >= 2 && text[0] == CTCP_DELIMITER && text[n - 1] == CTCP_DELIMITER {
        Some(copy_range(text, 1, n - 1))
    } else {
        None
    }
}

} // verus!
