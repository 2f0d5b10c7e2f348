//! File offers, and the search that finds them: the question put to a listing
//! bot and the line in which it answers.
//!
//! A reply line holds four fields, with spaces between them: the bot that owns
//! the file, the number of the pack in that bot's catalog, the size with its
//! unit, and the file name, which runs to the end of the line.

use vstd::prelude::*;
use vstd::slice::{slice_subrange, slice_to_vec};
use crate::decimal::{
    decimal_digits, decimal_value, format_decimal, is_digit, is_number,
    lemma_digits_round_trip, parse_decimal,
};
use crate::irc::{
    nick_of, private_message, send_private_message, sender_nick, wire_line, Message, MessageView,
};
use crate::text::{
    append, ascii, ascii_bytes, bytes_eq, copy_range, is_word, lemma_skip_spaces,
    lemma_skip_spaces_is, lemma_word_end, lemma_word_end_is, scan_spaces, scan_word, skip_spaces,
    word_end, SPACE,
};

verus! {

/// Bytes in a kibibyte.
pub const KIB: u64 = 1024;

/// Bytes in a mebibyte.
pub const MIB: u64 = 1_048_576;

/// Bytes in a gibibyte.
pub const GIB: u64 = 1_073_741_824;

/// Bytes in a tebibyte.
pub const TIB: u64 = 1_099_511_627_776;

/// How many seconds a search waits for the listing bot's answer.
pub const REPLY_TIMEOUT_SECONDS: u64 = 30;

/// A file that a bot offers.
#[derive(Debug, Clone, PartialEq, Eq)]
pub struct Offer {
    /// The nickname of the bot that owns the file.
    pub bot: Vec<u8>,
    /// The number of the offer in the bot's catalog.
    pub pack_number: u32,
    /// The file's name as the bot advertises it.
    pub filename: Vec<u8>,
    /// The size that the bot advertises, in bytes.
    pub size_bytes: u64,
}

/// What an `Offer` holds.
pub struct OfferView {
    pub bot: Seq<u8>,
    pub pack_number: nat,
    pub filename: Seq<u8>,
    pub size_bytes: nat,
}

impl View for Offer {
    type V = OfferView;

    open spec fn view(&self) -> OfferView {
        OfferView {
            bot: self.bot@,
            pack_number: self.pack_number as nat,
            filename: self.filename@,
            size_bytes: self.size_bytes as nat,
        }
    }
}

/// Whether `o` can be asked for and written in a reply line: the bot's name is
/// a word, the pack number is positive, the name of the file is not empty and
/// does not begin with a space, and the numbers fit their fields.
pub open spec fn well_formed(o: OfferView) -> bool {
    &&& is_word(o.bot)
    &&& 1 <= o.pack_number <= u32::MAX
    &&& o.size_bytes <= u64::MAX
    &&& o.filename.len() > 0
    &&& o.filename[0] != SPACE
}

/// Why a search gave no offer.
#[derive(Debug, Clone, Copy, PartialEq, Eq, Structural)]
pub enum SearchError {
    /// The listing bot did not answer in time, or the connection ended first.
    NoResponse,
    /// The listing bot answered with a line that is no offer.
    MalformedReply,
}

/// Where the digits that start at `from` end: the index of the first byte at or
/// after `from` that is no digit, or the length of `s` where there is none.
pub open spec fn digits_end(s: Seq<u8>, from: int) -> int
    decreases s.len() - from,
{
    if 0 <= from < s.len() && is_digit(s[from]) {
        digits_end(s, from + 1)
    } else {
        from
    }
}

/// How many bytes one of the unit `unit` counts for.
pub open spec fn unit_scale(unit: Seq<u8>) -> Option<nat> {
    if unit == ascii("B"@) {
        Some(1)
    } else if unit == ascii("KiB"@) || unit == ascii("K"@) {
        Some(KIB as nat)
    } else if unit == ascii("MiB"@) || unit == ascii("M"@) {
        Some(MIB as nat)
    } else if unit == ascii("GiB"@) || unit == ascii("G"@) {
        Some(GIB as nat)
    } else if unit == ascii("TiB"@) || unit == ascii("T"@) {
        Some(TIB as nat)
    } else {
        None
    }
}

/// The number of bytes that a size such as `350MiB` stands for: a number and,
/// right behind it, a unit.
pub open spec fn size_value(s: Seq<u8>) -> Option<nat> {
    let split = digits_end(s, 0);
    if split == 0 {
        None
    } else {
        match unit_scale(s.skip(split)) {
            Some(scale) => Some(decimal_value(s.take(split)) * scale),
            None => None,
        }
    }
}

/// A size of `n` bytes in the largest unit that gives a whole number.
pub open spec fn size_text(n: nat) -> Seq<u8> {
    if n > 0 && n % (TIB as nat) == 0 {
        decimal_digits(n / (TIB as nat)) + ascii("TiB"@)
    } else if n > 0 && n % (GIB as nat) == 0 {
        decimal_digits(n / (GIB as nat)) + ascii("GiB"@)
    } else if n > 0 && n % (MIB as nat) == 0 {
        decimal_digits(n / (MIB as nat)) + ascii("MiB"@)
    } else if n > 0 && n % (KIB as nat) == 0 {
        decimal_digits(n / (KIB as nat)) + ascii("KiB"@)
    } else {
        decimal_digits(n) + ascii("B"@)
    }
}

/// The offer that a reply line makes, if it makes one: four fields, of which
/// the second is a positive pack number and the third a size, both small
/// enough for their fields.
pub open spec fn reply_offer(line: Seq<u8>) -> Option<OfferView> {
    let bot_start = skip_spaces(line, 0);
    let bot_end = word_end(line, bot_start);
    let pack_start = skip_spaces(line, bot_end);
    let pack_end = word_end(line, pack_start);
    let size_start = skip_spaces(line, pack_end);
    let size_end = word_end(line, size_start);
    let name_start = skip_spaces(line, size_end);
    let pack = line.subrange(pack_start, pack_end);
    let size = size_value(line.subrange(size_start, size_end));
    if name_start < line.len() && is_number(pack) && 1 <= decimal_value(pack) <= u32::MAX
        && size is Some && size->0 <= u64::MAX {
        Some(
            OfferView {
                bot: line.subrange(bot_start, bot_end),
                pack_number: decimal_value(pack),
                filename: line.subrange(name_start, line.len() as int),
                size_bytes: size->0,
            },
        )
    } else {
        None
    }
}

/// The reply line that makes the offer `o`.
pub open spec fn reply_line(o: OfferView) -> Seq<u8> {
    o.bot + seq![SPACE] + decimal_digits(o.pack_number) + seq![SPACE] + size_text(o.size_bytes)
        + seq![SPACE] + o.filename
}

/// `digits_end` stops at the first byte that is no digit and not before.
pub proof fn lemma_digits_end(s: Seq<u8>, from: int)
    requires
        0 <= from <= s.len(),
    ensures
        from <= digits_end(s, from) <= s.len(),
        forall|k: int| from <= k < digits_end(s, from) ==> is_digit(s[k]),
        digits_end(s, from) < s.len() ==> !is_digit(s[digits_end(s, from)]),
    decreases s.len() - from,
{
    if from < s.len() && is_digit(s[from]) {
        lemma_digits_end(s, from + 1);
    }
}

/// A run of digits that another byte or the end of `s` follows is taken whole.
pub proof fn lemma_digits_end_is(s: Seq<u8>, from: int, end: int)
    requires
        0 <= from <= end <= s.len(),
        forall|k: int| from <= k < end ==> is_digit(s[k]),
        end < s.len() ==> !is_digit(s[end]),
    ensures
        digits_end(s, from) == end,
    decreases end - from,
{
    if from < end {
        lemma_digits_end_is(s, from + 1, end);
    }
}

/// The text of a unit holds letters only, and stands for as many bytes as it
/// should.
proof fn lemma_unit(unit: Seq<u8>, scale: nat)
    requires
        (unit == ascii("B"@) && scale == 1) || (unit == ascii("KiB"@) && scale == KIB) || (unit
            == ascii("MiB"@) && scale == MIB) || (unit == ascii("GiB"@) && scale == GIB) || (unit
            == ascii("TiB"@) && scale == TIB),
    ensures
        unit_scale(unit) == Some(scale),
        unit.len() > 0,
        forall|k: int| 0 <= k < unit.len() ==> !is_digit(#[trigger] unit[k]) && unit[k] != SPACE,
{
    reveal_strlit("B");
    reveal_strlit("K");
    reveal_strlit("KiB");
    reveal_strlit("M");
    reveal_strlit("MiB");
    reveal_strlit("G");
    reveal_strlit("GiB");
    reveal_strlit("T");
    reveal_strlit("TiB");
    let b = ascii("B"@);
    let k = ascii("KiB"@);
    let m = ascii("MiB"@);
    let g = ascii("GiB"@);
    let t = ascii("TiB"@);
    assert(b.len() == 1 && k.len() == 3 && m.len() == 3 && g.len() == 3 && t.len() == 3);
    assert(b[0] == 0x42);
    assert(k[0] == 0x4b && m[0] == 0x4d && g[0] == 0x47 && t[0] == 0x54);
    assert(k[1] == 0x69 && m[1] == 0x69 && g[1] == 0x69 && t[1] == 0x69);
    assert(k[2] == 0x42 && m[2] == 0x42 && g[2] == 0x42 && t[2] == 0x42);
}

/// A number with a unit behind it is a size, and holds no space.
proof fn lemma_size_of_parts(amount: nat, unit: Seq<u8>, scale: nat)
    requires
        unit_scale(unit) == Some(scale),
        unit.len() > 0,
        forall|k: int| 0 <= k < unit.len() ==> !is_digit(#[trigger] unit[k]) && unit[k] != SPACE,
    ensures
        size_value(decimal_digits(amount) + unit) == Some(amount * scale),
        is_word(decimal_digits(amount) + unit),
{
    let digits = decimal_digits(amount);
    let text = digits + unit;
    lemma_digits_round_trip(amount);
    let split = digits.len() as int;
    assert forall|k: int| 0 <= k < split implies is_digit(text[k]) by {
        assert(text[k] == digits[k]);
    }
    assert(text[split] == unit[0]);
    lemma_digits_end_is(text, 0, split);
    assert(text.take(split) == digits);
    assert(text.skip(split) == unit);
    assert forall|k: int| 0 <= k < text.len() implies #[trigger] text[k] != SPACE by {
        if k < split {
            assert(text[k] == digits[k]);
        } else {
            assert(text[k] == unit[k - split]);
        }
    }
}

/// Writing a size and reading it back gives the size. What is written holds no
/// space.
pub proof fn lemma_size_round_trip(n: nat)
    ensures
        size_value(size_text(n)) == Some(n),
        is_word(size_text(n)),
{
    if n > 0 && n % (TIB as nat) == 0 {
        lemma_unit(ascii("TiB"@), TIB as nat);
        lemma_size_of_parts(n / (TIB as nat), ascii("TiB"@), TIB as nat);
    } else if n > 0 && n % (GIB as nat) == 0 {
        lemma_unit(ascii("GiB"@), GIB as nat);
        lemma_size_of_parts(n / (GIB as nat), ascii("GiB"@), GIB as nat);
    } else if n > 0 && n % (MIB as nat) == 0 {
        lemma_unit(ascii("MiB"@), MIB as nat);
        lemma_size_of_parts(n / (MIB as nat), ascii("MiB"@), MIB as nat);
    } else if n > 0 && n % (KIB as nat) == 0 {
        lemma_unit(ascii("KiB"@), KIB as nat);
        lemma_size_of_parts(n / (KIB as nat), ascii("KiB"@), KIB as nat);
    } else {
        lemma_unit(ascii("B"@), 1);
        lemma_size_of_parts(n, ascii("B"@), 1);
    }
}

/// What does not begin with a digit is no size.
pub proof fn lemma_size_needs_number(s: Seq<u8>)
    requires
        s.len() == 0 || !is_digit(s[0]),
    ensures
        size_value(s) is None,
{
}

/// A line with fewer than three spaces lacks a field, and makes no offer.
pub proof fn lemma_reply_needs_fields(line: Seq<u8>)
    requires
        forall|a: int, b: int, c: int|
            0 <= a < b < c < line.len() ==> !(line[a] == SPACE && line[b] == SPACE && line[c]
                == SPACE),
    ensures
        reply_offer(line) is None,
{
    let bot_start = skip_spaces(line, 0);
    lemma_skip_spaces(line, 0);
    lemma_word_end(line, bot_start);
    let bot_end = word_end(line, bot_start);
    lemma_skip_spaces(line, bot_end);
    let pack_start = skip_spaces(line, bot_end);
    lemma_word_end(line, pack_start);
    let pack_end = word_end(line, pack_start);
    lemma_skip_spaces(line, pack_end);
    let size_start = skip_spaces(line, pack_end);
    lemma_word_end(line, size_start);
    let size_end = word_end(line, size_start);
    lemma_skip_spaces(line, size_end);
    let name_start = skip_spaces(line, size_end);
    if name_start < line.len() {
        assert(bot_end < pack_start);
        assert(pack_end < size_start);
        assert(size_end < name_start);
        assert(line[bot_end] == SPACE && line[pack_end] == SPACE && line[size_end] == SPACE);
        assert(bot_end < pack_end < size_end);
    }
}

/// An offer that a reply line makes is whole: it names a bot and a file, and
/// its pack number is positive.
pub proof fn lemma_reply_is_whole(line: Seq<u8>)
    requires
        reply_offer(line) is Some,
    ensures
        well_formed(reply_offer(line)->0),
{
    let bot_start = skip_spaces(line, 0);
    lemma_skip_spaces(line, 0);
    lemma_word_end(line, bot_start);
    let bot_end = word_end(line, bot_start);
    lemma_skip_spaces(line, bot_end);
    let pack_start = skip_spaces(line, bot_end);
    lemma_word_end(line, pack_start);
    let pack_end = word_end(line, pack_start);
    lemma_skip_spaces(line, pack_end);
    let size_start = skip_spaces(line, pack_end);
    lemma_word_end(line, size_start);
    let size_end = word_end(line, size_start);
    lemma_skip_spaces(line, size_end);
    let name_start = skip_spaces(line, size_end);
    let bot = line.subrange(bot_start, bot_end);
    assert(bot_start < bot_end) by {
        if bot_start == bot_end {
            assert(pack_start == bot_start || line[bot_end] == SPACE);
        }
    }
    assert forall|i: int| 0 <= i < bot.len() implies #[trigger] bot[i] != SPACE by {
        assert(bot[i] == line[bot_start + i]);
    }
    assert(line.subrange(name_start, line.len() as int)[0] == line[name_start]);
}

/// An offer that is written as a reply line and read back is the same offer,
/// in every field.
pub proof fn lemma_reply_round_trip(o: OfferView)
    requires
        well_formed(o),
    ensures
        reply_offer(reply_line(o)) == Some(o),
{
    let line = reply_line(o);
    let pack = decimal_digits(o.pack_number);
    let size = size_text(o.size_bytes);
    lemma_digits_round_trip(o.pack_number);
    lemma_size_round_trip(o.size_bytes);
    let bot_end = o.bot.len() as int;
    let pack_start = bot_end + 1;
    let pack_end = pack_start + pack.len();
    let size_start = pack_end + 1;
    let size_end = size_start + size.len();
    let name_start = size_end + 1;
    assert(line.len() == name_start + o.filename.len());
    assert forall|k: int| 0 <= k < bot_end implies line[k] != SPACE by {
        assert(line[k] == o.bot[k]);
    }
    assert forall|k: int| pack_start <= k < pack_end implies line[k] != SPACE by {
        assert(line[k] == pack[k - pack_start]);
        assert(is_digit(pack[k - pack_start]));
    }
    assert forall|k: int| size_start <= k < size_end implies line[k] != SPACE by {
        assert(line[k] == size[k - size_start]);
    }
    assert(line[bot_end] == SPACE);
    assert(line[pack_end] == SPACE);
    assert(line[size_end] == SPACE);
    assert(line[0] == o.bot[0]);
    assert(line[pack_start] == pack[0]);
    assert(is_digit(pack[0]));
    assert(line[size_start] == size[0]);
    assert(line[name_start] == o.filename[0]);
    lemma_skip_spaces_is(line, 0, 0);
    lemma_word_end_is(line, 0, bot_end);
    lemma_skip_spaces_is(line, bot_end, pack_start);
    lemma_word_end_is(line, pack_start, pack_end);
    lemma_skip_spaces_is(line, pack_end, size_start);
    lemma_word_end_is(line, size_start, size_end);
    lemma_skip_spaces_is(line, size_end, name_start);
    assert(line.subrange(0, bot_end) == o.bot);
    assert(line.subrange(pack_start, pack_end) == pack);
    assert(line.subrange(size_start, size_end) == size);
    assert(line.subrange(name_start, line.len() as int) == o.filename);
}

/// The index of the first byte at or after `from` that is no digit.
fn scan_digits(s: &[u8], from: usize) -> (r: usize)
    requires
        from <= s.len(),
    ensures
        r == digits_end(s@, from as int),
        from <= r <= s.len(),
{
    let mut i: usize = from;
    while i < s.len() && 0x30 <= s[i] && s[i] <= 0x39
        invariant
            from <= i <= s.len(),
            digits_end(s@, from as int) == digits_end(s@, i as int),
        decreases s.len() - i,
    {
        i += 1;
    }
    i
}

/// How many bytes one of the unit `unit` counts for.
fn unit_factor(unit: &[u8]) -> (r: Option<u64>)
    ensures
        match unit_scale(unit@) {
            Some(scale) => r == Some(scale as u64) && scale >= 1 && scale <= TIB,
            None => r is None,
        },
{
    proof {
        reveal_strlit("B");
        reveal_strlit("K");
        reveal_strlit("KiB");
        reveal_strlit("M");
        reveal_strlit("MiB");
        reveal_strlit("G");
        reveal_strlit("GiB");
        reveal_strlit("T");
        reveal_strlit("TiB");
    }
    if bytes_eq(unit, ascii_bytes("B")) {
        Some(1)
    } else if bytes_eq(unit, ascii_bytes("KiB")) || bytes_eq(unit, ascii_bytes("K")) {
        Some(KIB)
    } else if bytes_eq(unit, ascii_bytes("MiB")) || bytes_eq(unit, ascii_bytes("M")) {
        Some(MIB)
    } else if bytes_eq(unit, ascii_bytes("GiB")) || bytes_eq(unit, ascii_bytes("G")) {
        Some(GIB)
    } else if bytes_eq(unit, ascii_bytes("TiB")) || bytes_eq(unit, ascii_bytes("T")) {
        Some(TIB)
    } else {
        None
    }
}

/// Reads a size such as `350MiB` as a number of bytes. Gives `None` for what is
/// no size, and for a size that is too large for `u64`.
pub fn parse_size(s: &[u8]) -> (r: Option<u64>)
    ensures
        match size_value(s@) {
            Some(v) => if v <= u64::MAX { r == Some(v as u64) } else { r is None },
            None => r is None,
        },
{
    let split: usize = scan_digits(s, 0);
    if split == 0 {
        return None;
    }
    proof {
        lemma_digits_end(s@, 0);
    }
    let scale: u64 = match unit_factor(slice_subrange(s, split, s.len())) {
        Some(scale) => scale,
        None => {
            return None;
        },
    };
    let ghost amount = decimal_value(s@.take(split as int));
    assert(amount * scale >= amount) by (nonlinear_arith)
        requires
            scale >= 1,
            amount >= 0,
    ;
    match parse_decimal(slice_subrange(s, 0, split)) {
        Some(n) => n.checked_mul(scale),
        None => None,
    }
}

/// Writes a size of `n` bytes in the largest unit that gives a whole number.
pub fn format_size(n: u64) -> (r: Vec<u8>)
    ensures
        r@ == size_text(n as nat),
{
    proof {
        reveal_strlit("B");
        reveal_strlit("KiB");
        reveal_strlit("MiB");
        reveal_strlit("GiB");
        reveal_strlit("TiB");
    }
    if n > 0 && n % TIB == 0 {
        let mut text = format_decimal(n / TIB);
        append(&mut text, ascii_bytes("TiB"));
        text
    } else if n > 0 && n % GIB == 0 {
        let mut text = format_decimal(n / GIB);
        append(&mut text, ascii_bytes("GiB"));
        text
    } else if n > 0 && n % MIB == 0 {
        let mut text = format_decimal(n / MIB);
        append(&mut text, ascii_bytes("MiB"));
        text
    } else if n > 0 && n % KIB == 0 {
        let mut text = format_decimal(n / KIB);
        append(&mut text, ascii_bytes("KiB"));
        text
    } else {
        let mut text = format_decimal(n);
        append(&mut text, ascii_bytes("B"));
        text
    }
}

/// Reads a reply line of the listing bot as an offer. A line that lacks a
/// field, or whose pack number or size is no number of the kind asked for, is
/// malformed.
pub fn parse_reply(line: &[u8]) -> (r: Result<Offer, SearchError>)
    ensures
        match reply_offer(line@) {
            Some(o) => r matches Ok(x) && x@ == o && well_formed(o),
            None => r == Err::<Offer, SearchError>(SearchError::MalformedReply),
        },
{
    proof {
        if reply_offer(line@) is Some {
            lemma_reply_is_whole(line@);
        }
    }
    let bot_start: usize = scan_spaces(line, 0);
    let bot_end: usize = scan_word(line, bot_start);
    let pack_start: usize = scan_spaces(line, bot_end);
    let pack_end: usize = scan_word(line, pack_start);
    let size_start: usize = scan_spaces(line, pack_end);
    let size_end: usize = scan_word(line, size_start);
    let name_start: usize = scan_spaces(line, size_end);
    if name_start >= line.len() {
        return Err(SearchError::MalformedReply);
    }
    let pack: u64 = match parse_decimal(slice_subrange(line, pack_start, pack_end)) {
        Some(n) => n,
        None => {
            return Err(SearchError::MalformedReply);
        },
    };
    if pack < 1 || pack > 0xffff_ffff {
        return Err(SearchError::MalformedReply);
    }
    let size: u64 = match parse_size(slice_subrange(line, size_start, size_end)) {
        Some(n) => n,
        None => {
            return Err(SearchError::MalformedReply);
        },
    };
    Ok(
        Offer {
            bot: copy_range(line, bot_start, bot_end),
            pack_number: pack as u32,
            filename: copy_range(line, name_start, line.len()),
            size_bytes: size,
        },
    )
}

/// Writes the reply line that makes the offer `o`.
pub fn encode_reply(o: &Offer) -> (r: Vec<u8>)
    ensures
        r@ == reply_line(o@),
{
    let mut line: Vec<u8> = Vec::new();
    append(&mut line, o.bot.as_slice());
    line.push(SPACE);
    let pack = format_decimal(o.pack_number as u64);
    append(&mut line, pack.as_slice());
    line.push(SPACE);
    let size = format_size(o.size_bytes);
    append(&mut line, size.as_slice());
    line.push(SPACE);
    append(&mut line, o.filename.as_slice());
    line
}

/// One search: a question put to a listing bot, and the wait for its answer.
#[derive(Debug, Clone, PartialEq, Eq)]
pub struct Search {
    /// The nickname of the bot that is asked.
    pub listing_bot: Vec<u8>,
    /// The nickname under which this client is known.
    pub nickname: Vec<u8>,
}

/// What can happen while a search waits for its answer.
#[derive(Debug, Clone, PartialEq, Eq)]
pub enum SearchEvent {
    /// A message came in over the control connection.
    Message(Message),
    /// The time allowed for an answer is over.
    TimedOut,
    /// The control connection ended.
    Disconnected,
}

/// What a `SearchEvent` holds.
pub enum SearchEventView {
    Message(MessageView),
    TimedOut,
    Disconnected,
}

impl View for SearchEvent {
    type V = SearchEventView;

    open spec fn view(&self) -> SearchEventView {
        match self {
            SearchEvent::Message(m) => SearchEventView::Message(m@),
            SearchEvent::TimedOut => SearchEventView::TimedOut,
            SearchEvent::Disconnected => SearchEventView::Disconnected,
        }
    }
}

/// Where a search stands after an event.
#[derive(Debug, Clone, PartialEq, Eq)]
pub enum SearchStep {
    /// The event was not the answer: keep waiting.
    Waiting,
    /// The listing bot answered with this offer.
    Found(Offer),
    /// The search is over without an offer.
    Failed(SearchError),
}

/// What a `SearchStep` holds.
pub enum SearchStepView {
    Waiting,
    Found(OfferView),
    Failed(SearchError),
}

impl View for SearchStep {
    type V = SearchStepView;

    open spec fn view(&self) -> SearchStepView {
        match self {
            SearchStep::Waiting => SearchStepView::Waiting,
            SearchStep::Found(o) => SearchStepView::Found(o@),
            SearchStep::Failed(e) => SearchStepView::Failed(*e),
        }
    }
}

/// The text of the question: the query, and behind it the index where one is
/// asked for.
pub open spec fn query_text(query: Seq<u8>, index: Option<u32>) -> Seq<u8> {
    match index {
        Some(i) => query + seq![SPACE] + decimal_digits(i as nat),
        None => query,
    }
}

/// Whether `m` is the listing bot's answer: a private message or a notice that
/// `listing_bot` sent to `nickname`.
pub open spec fn is_reply(listing_bot: Seq<u8>, nickname: Seq<u8>, m: MessageView) -> bool {
    &&& m.prefix matches Some(p) && nick_of(p) == listing_bot
    &&& m.command == ascii("PRIVMSG"@) || m.command == ascii("NOTICE"@)
    &&& m.params.len() == 2
    &&& m.params[0] == nickname
}

/// Where the search of `nickname` with `listing_bot` stands after `event`.
/// Traffic that is not the bot's answer changes nothing. The answer ends the
/// search, with an offer or as malformed; so does the end of the wait.
pub open spec fn search_step(
    listing_bot: Seq<u8>,
    nickname: Seq<u8>,
    event: SearchEventView,
) -> SearchStepView {
    match event {
        SearchEventView::Message(m) => if is_reply(listing_bot, nickname, m) {
            match reply_offer(m.params[1]) {
                Some(o) => SearchStepView::Found(o),
                None => SearchStepView::Failed(SearchError::MalformedReply),
            }
        } else {
            SearchStepView::Waiting
        },
        SearchEventView::TimedOut => SearchStepView::Failed(SearchError::NoResponse),
        SearchEventView::Disconnected => SearchStepView::Failed(SearchError::NoResponse),
    }
}

/// When the listing bot answers the client with the reply line of an offer,
/// the search finds that offer, in every field.
pub proof fn lemma_answer_is_found(
    listing_bot: Seq<u8>,
    nickname: Seq<u8>,
    prefix: Seq<u8>,
    o: OfferView,
)
    requires
        well_formed(o),
        nick_of(prefix) == listing_bot,
    ensures
        search_step(
            listing_bot,
            nickname,
            SearchEventView::Message(
                MessageView {
                    prefix: Some(prefix),
                    command: ascii("PRIVMSG"@),
                    params: seq![nickname, reply_line(o)],
                },
            ),
        ) == SearchStepView::Found(o),
{
    lemma_reply_round_trip(o);
}

impl Search {
    /// A search that asks `listing_bot` on behalf of `nickname`.
    pub fn new(listing_bot: &[u8], nickname: &[u8]) -> (r: Search)
        ensures
            r.listing_bot@ == listing_bot@,
            r.nickname@ == nickname@,
    {
        Search { listing_bot: slice_to_vec(listing_bot), nickname: slice_to_vec(nickname) }
    }

    /// The line that puts the question: a private message to the listing bot
    /// with the query and, where one is given, the index.
    pub fn request(&self, query: &[u8], index: Option<u32>) -> (line: Vec<u8>)
        ensures
            line@ == wire_line(private_message(self.listing_bot@, query_text(query@, index))),
    {
        let mut text: Vec<u8> = slice_to_vec(query);
        match index {
            Some(i) => {
                text.push(SPACE);
                let digits = format_decimal(i as u64);
                append(&mut text, digits.as_slice());
            },
            None => {},
        }
        assert(text@ == query_text(query@, index));
        send_private_message(self.listing_bot.as_slice(), text.as_slice())
    }

    /// Whether `m` is the listing bot's answer to this client.
    fn answers(&self, m: &Message) -> (r: bool)
        ensures
            r == is_reply(self.listing_bot@, self.nickname@, m@),
    {
        proof {
            reveal_strlit("PRIVMSG");
            reveal_strlit("NOTICE");
        }
        let from_bot: bool = match &m.prefix {
            Some(p) => {
                let nick = sender_nick(p.as_slice());
                bytes_eq(nick.as_slice(), self.listing_bot.as_slice())
            },
            None => false,
        };
        from_bot && (bytes_eq(m.command.as_slice(), ascii_bytes("PRIVMSG")) || bytes_eq(
            m.command.as_slice(),
            ascii_bytes("NOTICE"),
        )) && m.params.len() == 2 && bytes_eq(m.params[0].as_slice(), self.nickname.as_slice())
    }

    /// Takes one event and says where the search stands after it.
    pub fn step(&self, event: &SearchEvent) -> (r: SearchStep)
        ensures
            r@ == search_step(self.listing_bot@, self.nickname@, event@),
    {
        match event {
            SearchEvent::Message(m) => {
                if self.answers(m) {
                    match parse_reply(m.params[1].as_slice()) {
                        Ok(offer) => SearchStep::Found(offer),
                        Err(e) => SearchStep::Failed(e),
                    }
                } else {
                    SearchStep::Waiting
                }
            },
            SearchEvent::TimedOut => SearchStep::Failed(SearchError::NoResponse),
            SearchEvent::Disconnected => SearchStep::Failed(SearchError::NoResponse),
        }
    }
}

} // verus!
