//! The two texts of a transfer's start: the request that asks a bot for a pack,
//! and the notice in which the bot says where the file can be fetched. Also the
//! name under which a file is stored.
//!
//! A notice reads `DCC SEND <filename> <address> <port> <size>`. The three
//! numbers at its end are decimal; the address is an IPv4 address as one
//! 32-bit number, most significant octet first. A file name that holds spaces
//! comes in double quotes. While the file comes in, the receiver acknowledges
//! the bytes that it has.

use vstd::prelude::*;
use vstd::slice::{slice_subrange, slice_to_vec};
use crate::decimal::{
    decimal_digits, decimal_value, format_decimal, is_digit, is_number,
    lemma_digits_round_trip, parse_decimal,
};
use crate::text::{
    append, ascii, ascii_bytes, copy_range, has_prefix, lemma_word_start_is,
    literal, scan_word_back, starts_with, word_start, SPACE,
};

verus! {

/// The double quote that encloses a file name with spaces.
pub const QUOTE: u8 = 0x22;

/// The byte that stands in for one that a file name must not hold.
pub const UNDERSCORE: u8 = 0x5f;

/// The byte that separates the parts of a path.
pub const SLASH: u8 = 0x2f;

/// The dot, which no stored file's name begins with.
pub const DOT: u8 = 0x2e;

/// A bot's notice that a file is ready to be fetched.
#[derive(Debug, Clone, PartialEq, Eq)]
pub struct SendNotice {
    /// The file's name as the bot advertises it.
    pub filename: Vec<u8>,
    /// The IPv4 address to connect to, most significant octet first.
    pub address: u32,
    /// The port to connect to.
    pub port: u16,
    /// The size that the bot advertises, in bytes.
    pub size: u64,
}

/// What a `SendNotice` holds.
pub struct SendNoticeView {
    pub filename: Seq<u8>,
    pub address: nat,
    pub port: nat,
    pub size: nat,
}

impl View for SendNotice {
    type V = SendNoticeView;

    open spec fn view(&self) -> SendNoticeView {
        SendNoticeView {
            filename: self.filename@,
            address: self.address as nat,
            port: self.port as nat,
            size: self.size as nat,
        }
    }
}

/// The text that asks a bot for the pack with the number `pack_number`.
pub open spec fn pack_request_text(pack_number: nat) -> Seq<u8> {
    ascii("XDCC SEND "@) + decimal_digits(pack_number)
}

/// Whether `field` stands in double quotes.
pub open spec fn is_quoted(field: Seq<u8>) -> bool {
    field.len() >= 2 && field[0] == QUOTE && field.last() == QUOTE
}

/// The file name that the field of a notice gives: what stands between the
/// quotes, or the field itself where it has none.
pub open spec fn unquoted(field: Seq<u8>) -> Seq<u8> {
    if is_quoted(field) {
        field.subrange(1, field.len() - 1)
    } else {
        field
    }
}

/// The field that gives the file name `name` in a notice: in quotes where the
/// name holds a space, or would itself be taken for a quoted one.
pub open spec fn name_field(name: Seq<u8>) -> Seq<u8> {
    if name.contains(SPACE) || is_quoted(name) {
        seq![QUOTE] + name + seq![QUOTE]
    } else {
        name
    }
}

/// What the text of a notice says, if it is one: after `DCC SEND ` a file name
/// that is not empty, and at the end an address, a port that is not 0, and a
/// size, each a number that fits its field, with one space before each.
pub open spec fn send_notice(p: Seq<u8>) -> Option<SendNoticeView> {
    let head = ascii("DCC SEND "@);
    let size_start = word_start(p, p.len() as int);
    let port_start = word_start(p, size_start - 1);
    let address_start = word_start(p, port_start - 1);
    let size = p.subrange(size_start, p.len() as int);
    let port = p.subrange(port_start, size_start - 1);
    let address = p.subrange(address_start, port_start - 1);
    let name = unquoted(p.subrange(head.len() as int, address_start - 1));
    if has_prefix(p, head) && head.len() < address_start - 1 && name.len() > 0 && is_number(address)
        && decimal_value(address) <= u32::MAX && is_number(port) && 1 <= decimal_value(port)
        <= u16::MAX && is_number(size) && decimal_value(size) <= u64::MAX {
        Some(
            SendNoticeView {
                filename: name,
                address: decimal_value(address),
                port: decimal_value(port),
                size: decimal_value(size),
            },
        )
    } else {
        None
    }
}

/// The text of the notice `n`.
pub open spec fn send_text(n: SendNoticeView) -> Seq<u8> {
    ascii("DCC SEND "@) + name_field(n.filename) + seq![SPACE] + decimal_digits(n.address) + seq![
        SPACE,
    ] + decimal_digits(n.port) + seq![SPACE] + decimal_digits(n.size)
}

/// The four octets of an address, most significant first.
pub open spec fn octets_of(address: u32) -> (u8, u8, u8, u8) {
    (
        (address / 0x100_0000) as u8,
        (address / 0x1_0000 % 0x100) as u8,
        (address / 0x100 % 0x100) as u8,
        (address % 0x100) as u8,
    )
}

/// The acknowledgement that the receiver of a file sends after `total` bytes
/// have come in: the count as a number of 32 bits, most significant byte
/// first. A count that needs more bits is cut to its lowest 32.
pub open spec fn acknowledgement_of(total: u64) -> Seq<u8> {
    seq![
        (total / 0x100_0000 % 0x100) as u8,
        (total / 0x1_0000 % 0x100) as u8,
        (total / 0x100 % 0x100) as u8,
        (total % 0x100) as u8,
    ]
}

/// Whether a stored file's name may hold `b`: no control character, and none of
/// the bytes that a file system gives a meaning of its own.
pub open spec fn is_safe(b: u8) -> bool {
    &&& 0x20 <= b
    &&& b != 0x7f
    &&& b != SLASH
    &&& b != 0x5c
    &&& b != 0x3a
    &&& b != 0x2a
    &&& b != 0x3f
    &&& b != QUOTE
    &&& b != 0x3c
    &&& b != 0x3e
    &&& b != 0x7c
}

/// The name under which the file advertised as `name` is stored: every byte
/// that is not safe, and a dot at the start, gives way to an underscore; an
/// empty name becomes a single underscore.
pub open spec fn sanitized(name: Seq<u8>) -> Seq<u8> {
    if name.len() == 0 {
        seq![UNDERSCORE]
    } else {
        Seq::new(
            name.len(),
            |i: int|
                if is_safe(name[i]) && !(i == 0 && name[i] == DOT) {
                    name[i]
                } else {
                    UNDERSCORE
                },
        )
    }
}

/// The path of the file `name` in the directory `dir`.
pub open spec fn destination(dir: Seq<u8>, name: Seq<u8>) -> Seq<u8> {
    if dir.len() == 0 || dir.last() == SLASH {
        dir + sanitized(name)
    } else {
        dir + seq![SLASH] + sanitized(name)
    }
}

/// A stored file's name is one path component: it is not empty, holds safe
/// bytes only, and does not begin with a dot. A name that is already so stays
/// as it is.
pub proof fn lemma_sanitized(name: Seq<u8>)
    ensures
        sanitized(name).len() > 0,
        name.len() > 0 ==> sanitized(name).len() == name.len(),
        forall|i: int| 0 <= i < sanitized(name).len() ==> is_safe(#[trigger] sanitized(name)[i]),
        sanitized(name)[0] != DOT,
        sanitized(sanitized(name)) == sanitized(name),
{
    let once = sanitized(name);
    assert(forall|i: int| 0 <= i < once.len() ==> is_safe(#[trigger] once[i]));
    assert(sanitized(once) == once);
}

/// Whether `n` is a notice that a bot can send: it names a file and a port, and
/// its numbers fit their fields.
pub open spec fn well_formed(n: SendNoticeView) -> bool {
    &&& n.filename.len() > 0
    &&& n.address <= u32::MAX
    &&& 1 <= n.port <= u16::MAX
    &&& n.size <= u64::MAX
}

/// A notice that is written as text and read back is the same notice, in every
/// field.
pub proof fn lemma_send_round_trip(n: SendNoticeView)
    requires
        well_formed(n),
    ensures
        send_notice(send_text(n)) == Some(n),
{
    reveal_strlit("DCC SEND ");
    let head = ascii("DCC SEND "@);
    let field = name_field(n.filename);
    let address = decimal_digits(n.address);
    let port = decimal_digits(n.port);
    let size = decimal_digits(n.size);
    let p = send_text(n);
    lemma_digits_round_trip(n.address);
    lemma_digits_round_trip(n.port);
    lemma_digits_round_trip(n.size);
    let name_start = head.len() as int;
    let name_end = name_start + field.len();
    let address_start = name_end + 1;
    let address_end = address_start + address.len();
    let port_start = address_end + 1;
    let port_end = port_start + port.len();
    let size_start = port_end + 1;
    assert(p.len() == size_start + size.len());
    assert forall|k: int| size_start <= k < p.len() implies p[k] != SPACE by {
        assert(p[k] == size[k - size_start]);
        assert(is_digit(size[k - size_start]));
    }
    assert forall|k: int| port_start <= k < port_end implies p[k] != SPACE by {
        assert(p[k] == port[k - port_start]);
        assert(is_digit(port[k - port_start]));
    }
    assert forall|k: int| address_start <= k < address_end implies p[k] != SPACE by {
        assert(p[k] == address[k - address_start]);
        assert(is_digit(address[k - address_start]));
    }
    assert(p[port_end] == SPACE);
    assert(p[address_end] == SPACE);
    assert(p[name_end] == SPACE);
    lemma_word_start_is(p, size_start, p.len() as int);
    lemma_word_start_is(p, port_start, port_end);
    lemma_word_start_is(p, address_start, address_end);
    assert(p.take(head.len() as int) == head);
    assert(p.subrange(size_start, p.len() as int) == size);
    assert(p.subrange(port_start, port_end) == port);
    assert(p.subrange(address_start, address_end) == address);
    assert(p.subrange(name_start, name_end) == field);
    if n.filename.contains(SPACE) || is_quoted(n.filename) {
        assert(field.subrange(1, field.len() - 1) == n.filename);
    }
    assert(unquoted(field) == n.filename);
}

/// The text that asks a bot for the pack with the number `pack_number`.
pub fn pack_request(pack_number: u32) -> (r: Vec<u8>)
    ensures
        r@ == pack_request_text(pack_number as nat),
{
    proof {
        reveal_strlit("XDCC SEND ");
    }
    let mut text = literal("XDCC SEND ");
    let digits = format_decimal(pack_number as u64);
    append(&mut text, digits.as_slice());
    text
}

/// Reads the text of a notice.
pub fn parse_send(payload: &[u8]) -> (r: Option<SendNotice>)
    ensures
        match send_notice(payload@) {
            Some(n) => r matches Some(x) && x@ == n,
            None => r is None,
        },
{
    proof {
        reveal_strlit("DCC SEND ");
    }
    let head = ascii_bytes("DCC SEND ");
    if !starts_with(payload, head) {
        return None;
    }
    let size_start: usize = scan_word_back(payload, payload.len());
    if size_start < 1 {
        return None;
    }
    let port_start: usize = scan_word_back(payload, size_start - 1);
    if port_start < 1 {
        return None;
    }
    let address_start: usize = scan_word_back(payload, port_start - 1);
    if address_start < 1 || head.len() >= address_start - 1 {
        return None;
    }
    let field = slice_subrange(payload, head.len(), address_start - 1);
    let count: usize = field.len();
    let name: Vec<u8> = if count >= 2 && field[0] == QUOTE && field[count - 1] == QUOTE {
        copy_range(field, 1, count - 1)
    } else {
        slice_to_vec(field)
    };
    if name.len() == 0 {
        return None;
    }
    let address: u64 = match parse_decimal(slice_subrange(payload, address_start, port_start - 1)) {
        Some(n) => n,
        None => {
            return None;
        },
    };
    let port: u64 = match parse_decimal(slice_subrange(payload, port_start, size_start - 1)) {
        Some(n) => n,
        None => {
            return None;
        },
    };
    let size: u64 = match parse_decimal(slice_subrange(payload, size_start, payload.len())) {
        Some(n) => n,
        None => {
            return None;
        },
    };
    if address > 0xffff_ffff || port < 1 || port > 0xffff {
        return None;
    }
    Some(SendNotice { filename: name, address: address as u32, port: port as u16, size })
}

/// Whether `name` holds a space.
fn holds_space(name: &[u8]) -> (r: bool)
    ensures
        r == name@.contains(SPACE),
{
    let mut i: usize = 0;
    while i < name.len()
        invariant
            0 <= i <= name.len(),
            forall|k: int| 0 <= k < i ==> name@[k] != SPACE,
        decreases name.len() - i,
    {
        if name[i] == SPACE {
            return true;
        }
        i += 1;
    }
    false
}

/// Writes the text of the notice `n`.
pub fn encode_send(n: &SendNotice) -> (r: Vec<u8>)
    ensures
        r@ == send_text(n@),
{
    proof {
        reveal_strlit("DCC SEND ");
    }
    let mut text = literal("DCC SEND ");
    let name = n.filename.as_slice();
    let count: usize = name.len();
    if holds_space(name) || (count >= 2 && name[0] == QUOTE && name[count - 1] == QUOTE) {
        text.push(QUOTE);
        append(&mut text, name);
        text.push(QUOTE);
    } else {
        append(&mut text, name);
    }
    text.push(SPACE);
    let address = format_decimal(n.address as u64);
    append(&mut text, address.as_slice());
    text.push(SPACE);
    let port = format_decimal(n.port as u64);
    append(&mut text, port.as_slice());
    text.push(SPACE);
    let size = format_decimal(n.size);
    append(&mut text, size.as_slice());
    text
}

/// The four octets of an address, most significant first.
pub fn octets(address: u32) -> (r: (u8, u8, u8, u8))
    ensures
        r == octets_of(address),
        address == r.0 * 0x100_0000 + r.1 * 0x1_0000 + r.2 * 0x100 + r.3,
{
    (
        (address / 0x100_0000) as u8,
        (address / 0x1_0000 % 0x100) as u8,
        (address / 0x100 % 0x100) as u8,
        (address % 0x100) as u8,
    )
}

/// The acknowledgement that the receiver of a file sends after `total` bytes
/// have come in.
pub fn acknowledgement(total: u64) -> (r: [u8; 4])
    ensures
        r@ == acknowledgement_of(total),
        r@[0] * 0x100_0000 + r@[1] * 0x1_0000 + r@[2] * 0x100 + r@[3] == total % 0x1_0000_0000,
{
    [
        (total / 0x100_0000 % 0x100) as u8,
        (total / 0x1_0000 % 0x100) as u8,
        (total / 0x100 % 0x100) as u8,
        (total % 0x100) as u8,
    ]
}

/// Whether a stored file's name may hold `b`.
fn safe(b: u8) -> (r: bool)
    ensures
        r == is_safe(b),
{
    0x20 <= b && b != 0x7f && b != SLASH && b != 0x5c && b != 0x3a && b != 0x2a && b != 0x3f && b
        != QUOTE && b != 0x3c && b != 0x3e && b != 0x7c
}

/// The name under which the file advertised as `name` is stored.
pub fn sanitize(name: &[u8]) -> (r: Vec<u8>)
    ensures
        r@ == sanitized(name@),
{
    let mut stored: Vec<u8> = Vec::new();
    if name.len() == 0 {
        stored.push(UNDERSCORE);
        return stored;
    }
    let mut i: usize = 0;
    while i < name.len()
        invariant
            0 <= i <= name.len(),
            name.len() > 0,
            stored@ == sanitized(name@).take(i as int),
        decreases name.len() - i,
    {
        let b: u8 = name[i];
        if safe(b) && !(i == 0 && b == DOT) {
            stored.push(b);
        } else {
            stored.push(UNDERSCORE);
        }
        proof {
            assert(sanitized(name@).take(i + 1) == sanitized(name@).take(i as int).push(
                sanitized(name@)[i as int],
            ));
        }
        i += 1;
    }
    proof {
        assert(sanitized(name@).take(i as int) == sanitized(name@));
    }
    stored
}

/// The path of the file `name` in the directory `dir`.
pub fn destination_path(dir: &[u8], name: &[u8]) -> (r: Vec<u8>)
    ensures
        r@ == destination(dir@, name@),
{
    let mut path: Vec<u8> = slice_to_vec(dir);
    if !(dir.len() == 0 || dir[dir.len() - 1] == SLASH) {
        path.push(SLASH);
    }
    let stored = sanitize(name);
    append(&mut path, stored.as_slice());
    path
}

} // verus!
