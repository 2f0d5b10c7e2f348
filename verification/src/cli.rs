//! What the user asks for: the options of the command line, and the searches
//! that they stand for.
//!
//! A query is sent with the resolution behind it, 720 unless the user says
//! otherwise and none at all for `0`. With an episode or the end of a batch
//! given, one search is made for each number from the first to the last;
//! without either, a single search without a number.

use vstd::prelude::*;
use vstd::slice::slice_to_vec;
use vstd::utf8::encode_utf8;
use crate::decimal::{decimal_digits, format_decimal};
use crate::text::{append, same_text, SPACE};

verus! {

/// Whether `char::is_numeric` holds of `c`: whether Unicode counts the
/// character among the numbers.
pub uninterp spec fn numeric(c: char) -> bool;

/// Calls `char::is_numeric`. The contract names the result, and says what it
/// is for an ASCII character: the digits `0` to `9` are the ASCII characters
/// that Unicode counts among the numbers.
#[verifier::external_body]
fn is_numeric(c: char) -> (b: bool)
    ensures
        b == numeric(c),
        c <= '\u{7f}' ==> b == ('0' <= c <= '9'),
{
    c.is_numeric()
}

#[verifier::external_type_specification]
#[verifier::external_body]
pub struct ExOptions(getopts::Options);

#[verifier::external_type_specification]
#[verifier::external_body]
pub struct ExMatches(getopts::Matches);

#[verifier::external_type_specification]
#[verifier::external_body]
pub struct ExFail(getopts::Fail);

/// The options that `options` knows, in the order in which they were
/// declared: of each its short name and its long name, either of which may be
/// empty.
pub uninterp spec fn declared(options: getopts::Options) -> Seq<(Seq<char>, Seq<char>)>;

/// Of each option that `options` knows, in the order in which they were
/// declared, whether it takes an argument.
pub uninterp spec fn argued(options: getopts::Options) -> Seq<bool>;

/// What `matches` answers when asked for an option by one of its names: the
/// argument that the command line gave the option, if it gave one. The
/// map's domain holds the names under which the options were declared that
/// the command line was read by: each short name, and each long name of more
/// than one character.
pub uninterp spec fn answers(matches: getopts::Matches) -> Map<Seq<char>, Option<Seq<char>>>;

/// What `getopts::Options::parse` makes of the command line `arguments`, for
/// options with the names `known` of which `with_argument` says which take an
/// argument: what can be asked of the matches that it gives, or nothing where
/// it refuses the command line.
///
/// This is what `parse` gives for options that were made by `no_options`,
/// `declare_option` and `declare_flag` alone: every option may be left out,
/// none may be given twice, and options and other arguments may stand in any
/// order. Of options made in another way the name says nothing.
pub uninterp spec fn found(
    known: Seq<(Seq<char>, Seq<char>)>,
    with_argument: Seq<bool>,
    arguments: Seq<Seq<char>>,
) -> Option<Map<Seq<char>, Option<Seq<char>>>>;

/// The text of each argument of a command line.
pub open spec fn argument_texts(arguments: Seq<String>) -> Seq<Seq<char>> {
    Seq::new(arguments.len(), |i: int| arguments[i]@)
}

/// The names under which options declared as `known` can be asked for: every
/// short name, which is one character, and every long name, which is more.
pub open spec fn names_of(known: Seq<(Seq<char>, Seq<char>)>) -> Set<Seq<char>> {
    Set::new(
        |name: Seq<char>|
            exists|i: int|
                0 <= i < known.len() && ((name == (#[trigger] known[i]).0 && name.len() == 1) || (
                name == known[i].1 && name.len() > 1)),
    )
}

/// Whether `short` and `long` can name an option: the short name is empty or
/// one ASCII character, the long name is ASCII and not one character long.
pub open spec fn can_name(short: &str, long: &str) -> bool {
    &&& short.is_ascii()
    &&& short@.len() <= 1
    &&& long.is_ascii()
    &&& long@.len() != 1
}

/// Calls `getopts::Options::new`, which gives a set of options that knows
/// none.
#[verifier::external_body]
fn no_options() -> (options: getopts::Options)
    ensures
        declared(options) == Seq::<(Seq<char>, Seq<char>)>::empty(),
        argued(options) == Seq::<bool>::empty(),
{
    getopts::Options::new()
}

/// Calls `getopts::Options::optopt`, which declares one more option, at the
/// end of those declared before: one that takes an argument and need not be
/// given. It panics on names that `can_name` refuses.
#[verifier::external_body]
fn declare_option(options: &mut getopts::Options, short: &str, long: &str, about: &str, hint: &str)
    requires
        can_name(short, long),
    ensures
        declared(*final(options)) == declared(*old(options)).push((short@, long@)),
        argued(*final(options)) == argued(*old(options)).push(true),
{
    options.optopt(short, long, about, hint);
}

/// Calls `getopts::Options::optflag`, which declares one more option, at the
/// end of those declared before: one that takes no argument and need not be
/// given. It panics on names that `can_name` refuses.
#[verifier::external_body]
fn declare_flag(options: &mut getopts::Options, short: &str, long: &str, about: &str)
    requires
        can_name(short, long),
    ensures
        declared(*final(options)) == declared(*old(options)).push((short@, long@)),
        argued(*final(options)) == argued(*old(options)).push(false),
{
    options.optflag(short, long, about);
}

/// Calls `getopts::Options::parse`. Whether it accepts the command line, and
/// what can be asked of the matches that it gives, is named by `found`: it
/// follows from the names of the options, from which of them take an
/// argument, and from the arguments. The matches can be asked for every
/// option that was declared, by each of its names, and for nothing else. It
/// panics on an option that was declared without any name.
#[verifier::external_body]
fn match_arguments(options: &getopts::Options, arguments: &[String]) -> (r: Result<
    getopts::Matches,
    getopts::Fail,
>)
    requires
        forall|i: int|
            0 <= i < declared(*options).len() ==> (#[trigger] declared(*options)[i]).0.len() > 0
                || declared(*options)[i].1.len() > 0,
    ensures
        r matches Ok(matches) ==> answers(matches).dom() == names_of(declared(*options)),
        match r {
            Ok(matches) => found(
                declared(*options),
                argued(*options),
                argument_texts(arguments@),
            ) == Some(answers(matches)),
            Err(_) => found(declared(*options), argued(*options), argument_texts(arguments@))
                is None,
        },
{
    options.parse(arguments)
}

/// Calls `getopts::Matches::opt_str`, which gives the argument of an option,
/// if the command line gave it one. It panics on a name that cannot be asked
/// for.
#[verifier::external_body]
fn argument_of(matches: &getopts::Matches, name: &str) -> (r: Option<String>)
    requires
        answers(*matches).dom().contains(name@),
    ensures
        match answers(*matches)[name@] {
            Some(text) => r matches Some(x) && x@ == text,
            None => r is None,
        },
{
    matches.opt_str(name)
}

/// Calls `getopts::Options::short_usage`, which gives a line that sums up the
/// options for the user. Nothing is stated of that line.
#[verifier::external_body]
fn usage_line(options: &getopts::Options, program: &str) -> (line: String) {
    options.short_usage(program)
}

/// Calls `to_string` on a `getopts::Fail`, which gives the words in which
/// getopts says what is wrong with the command line. Nothing is stated of
/// those words.
#[verifier::external_body]
fn failure_words(failure: &getopts::Fail) -> (words: String) {
    failure.to_string()
}

/// Why the command line stands for no searches.
#[derive(Debug, Clone, PartialEq, Eq)]
pub enum CommandLineError {
    /// The command line is not made as the options ask. With the words that
    /// say what is wrong, and a line that sums up the options.
    Usage { words: String, usage: String },
    /// The options are given, and one of them is wrong.
    Input(InputError),
}

/// Why the options stand for no searches.
#[derive(Debug, Clone, Copy, PartialEq, Eq, Structural)]
pub enum InputError {
    /// No query was given.
    MissingQuery,
    /// What should be a number holds a numeral that is no digit from 0 to 9, or
    /// is too large.
    NotNumeric,
    /// The batch ends before the episode that it begins with.
    InvertedRange,
}

/// The searches that the options stand for.
#[derive(Debug, Clone, PartialEq, Eq)]
pub struct SearchPlan {
    /// The query as it is sent, with the resolution behind it.
    pub query: Vec<u8>,
    /// The number of the first search.
    pub first: u16,
    /// The number of the last search.
    pub last: u16,
    /// Whether the searches are sent with their numbers.
    pub numbered: bool,
}

/// What a `SearchPlan` holds.
pub struct SearchPlanView {
    pub query: Seq<u8>,
    pub first: u16,
    pub last: u16,
    pub numbered: bool,
}

impl View for SearchPlan {
    type V = SearchPlanView;

    open spec fn view(&self) -> SearchPlanView {
        SearchPlanView {
            query: self.query@,
            first: self.first,
            last: self.last,
            numbered: self.numbered,
        }
    }
}

/// Whether `c` is one of the digits `0` to `9`.
pub open spec fn is_decimal(c: char) -> bool {
    '0' <= c <= '9'
}

/// The characters of `text` that count among the numbers, in their order.
pub open spec fn numerals(text: Seq<char>) -> Seq<char> {
    text.filter(|c: char| numeric(c))
}

/// The number that the digits of `s` denote in base ten.
pub open spec fn numeral_value(s: Seq<char>) -> int
    decreases s.len(),
{
    if s.len() == 0 {
        0
    } else {
        10 * numeral_value(s.drop_last()) + (s.last() as u32 - '0' as u32)
    }
}

/// The number that the numerals `kept` denote. They denote none if one of
/// them is no digit from 0 to 9, or if they denote more than 65535. No
/// numerals at all denote 0.
pub open spec fn numerals_number(kept: Seq<char>) -> Result<u16, InputError> {
    if (forall|i: int| 0 <= i < kept.len() ==> is_decimal(#[trigger] kept[i])) && numeral_value(kept)
        <= u16::MAX {
        Ok(numeral_value(kept) as u16)
    } else {
        Err(InputError::NotNumeric)
    }
}

/// The number in `text`: what its numerals denote when everything else is
/// left out.
pub open spec fn number_of(text: Seq<char>) -> Result<u16, InputError> {
    numerals_number(numerals(text))
}

/// The digits from 0 to 9 in `text`, in their order.
pub open spec fn decimals(text: Seq<char>) -> Seq<char> {
    text.filter(|c: char| is_decimal(c))
}

/// Whether `text` holds ASCII characters only.
pub open spec fn is_plain(text: Seq<char>) -> bool {
    forall|i: int| 0 <= i < text.len() ==> #[trigger] text[i] <= '\u{7f}'
}

/// Whether `text` holds digits from 0 to 9 only.
pub open spec fn is_decimal_text(text: Seq<char>) -> bool {
    forall|i: int| 0 <= i < text.len() ==> is_decimal(#[trigger] text[i])
}

/// The resolution that is asked for: 720 where the user says nothing, none
/// for `0`, else the number in what the user says.
pub open spec fn resolution_of(resolution: Option<Seq<char>>) -> Result<Option<u16>, InputError> {
    match resolution {
        None => Ok(Some(720u16)),
        Some(text) => if text == "0"@ {
            Ok(None)
        } else {
            match number_of(text) {
                Ok(n) => Ok(Some(n)),
                Err(e) => Err(e),
            }
        },
    }
}

/// The number in an option, where the option is given.
pub open spec fn optional_number(text: Option<Seq<char>>) -> Result<Option<u16>, InputError> {
    match text {
        None => Ok(None),
        Some(t) => match number_of(t) {
            Ok(n) => Ok(Some(n)),
            Err(e) => Err(e),
        },
    }
}

/// The query as it is sent: the bytes of the user's query, and behind them a
/// space and the resolution where there is one.
pub open spec fn query_bytes(query: Seq<char>, resolution: Option<u16>) -> Seq<u8> {
    match resolution {
        Some(r) => encode_utf8(query) + seq![SPACE] + decimal_digits(r as nat),
        None => encode_utf8(query),
    }
}

/// The searches that the numbers of episode and batch stand for. The first is
/// the episode, or 1; the last is the end of the batch, or the first. A batch
/// that ends before it begins is refused.
pub open spec fn range_of(episode: Option<u16>, batch: Option<u16>) -> Result<(u16, u16), InputError> {
    let first = match episode {
        Some(e) => e,
        None => 1u16,
    };
    match batch {
        Some(b) => if b < first {
            Err(InputError::InvertedRange)
        } else {
            Ok((first, b))
        },
        None => Ok((first, first)),
    }
}

/// The searches that the options stand for, or the first thing that is wrong
/// with the options: the resolution, a missing query, the episode, the end of
/// the batch, the order of the two.
pub open spec fn plan_of(
    query: Option<Seq<char>>,
    episode: Option<Seq<char>>,
    batch: Option<Seq<char>>,
    resolution: Option<Seq<char>>,
) -> Result<SearchPlanView, InputError> {
    match resolution_of(resolution) {
        Err(e) => Err(e),
        Ok(r) => match query {
            None => Err(InputError::MissingQuery),
            Some(q) => match optional_number(episode) {
                Err(e) => Err(e),
                Ok(first) => match optional_number(batch) {
                    Err(e) => Err(e),
                    Ok(last) => match range_of(first, last) {
                        Err(e) => Err(e),
                        Ok(range) => Ok(
                            SearchPlanView {
                                query: query_bytes(q, r),
                                first: range.0,
                                last: range.1,
                                numbered: first is Some || last is Some,
                            },
                        ),
                    },
                },
            },
        },
    }
}

/// The numbers with which the searches of `plan` are sent, in their order.
pub open spec fn plan_indices(plan: SearchPlanView) -> Seq<Option<u32>> {
    Seq::new(
        if plan.first <= plan.last { (plan.last - plan.first + 1) as nat } else { 0 },
        |k: int|
            if plan.numbered {
                Some((plan.first + k) as u32)
            } else {
                None
            },
    )
}

/// A number only grows when a digit is appended to it.
proof fn lemma_numeral_value_grows(s: Seq<char>, c: char)
    requires
        forall|i: int| 0 <= i < s.len() ==> is_decimal(#[trigger] s[i]),
        is_decimal(c),
    ensures
        0 <= numeral_value(s) <= numeral_value(s.push(c)),
        numeral_value(s.push(c)) == 10 * numeral_value(s) + (c as u32 - '0' as u32),
    decreases s.len(),
{
    assert(s.push(c).drop_last() == s);
    if s.len() > 0 {
        let head = s.drop_last();
        assert(head.push(s.last()) == s);
        lemma_numeral_value_grows(head, s.last());
    }
}

/// Says which number numerals denote.
pub fn number_from_numerals(kept: &[char]) -> (r: Result<u16, InputError>)
    ensures
        r == numerals_number(kept@),
{
    let mut value: u32 = 0;
    let mut over: bool = false;
    let mut i: usize = 0;
    proof {
        assert(kept@.take(0) == Seq::<char>::empty());
    }
    while i < kept.len()
        invariant
            0 <= i <= kept.len(),
            is_decimal_text(kept@.take(i as int)),
            value <= u16::MAX,
            if over {
                numeral_value(kept@.take(i as int)) > u16::MAX
            } else {
                numeral_value(kept@.take(i as int)) == value
            },
        decreases kept.len() - i,
    {
        let c: char = kept[i];
        if !('0' <= c && c <= '9') {
            return Err(InputError::NotNumeric);
        }
        proof {
            let before = kept@.take(i as int);
            assert(kept@.take(i + 1) == before.push(c));
            lemma_numeral_value_grows(before, c);
        }
        if !over {
            let next: u32 = value * 10 + ((c as u32) - ('0' as u32));
            if next > 0xffff {
                over = true;
            } else {
                value = next;
            }
        }
        i += 1;
    }
    proof {
        assert(kept@.take(i as int) == kept@);
    }
    if over {
        Err(InputError::NotNumeric)
    } else {
        Ok(value as u16)
    }
}

/// Reads the number in `text`, leaving out whatever is no numeral.
///
/// Which characters are numerals is for `char::is_numeric` to say. In a text
/// of ASCII characters they are the digits from 0 to 9, so that the number in
/// such a text is the number that its digits denote; and a text of digits
/// only denotes its number as it stands.
pub fn parse_number(text: &str) -> (r: Result<u16, InputError>)
    ensures
        r == number_of(text@),
        is_plain(text@) ==> r == numerals_number(decimals(text@)),
        is_decimal_text(text@) ==> r == numerals_number(text@),
{
    let mut kept: Vec<char> = Vec::new();
    proof {
        reveal(Seq::filter);
        assert(text@.take(0) == Seq::<char>::empty());
    }
    for c in iter: text.chars()
        invariant
            iter.seq() == text@,
            kept@ == numerals(text@.take(iter.index() as int)),
            is_plain(text@.take(iter.index() as int)) ==> kept@ == decimals(
                text@.take(iter.index() as int),
            ),
            is_decimal_text(text@.take(iter.index() as int)) ==> kept@ == text@.take(
                iter.index() as int,
            ),
    {
        let ghost at = iter.index() as int;
        let ghost before = text@.take(at);
        let ghost after = text@.take(at + 1);
        proof {
            reveal(Seq::filter);
            assert(after.drop_last() == before);
            assert(after.last() == c);
            assert(after == before.push(c));
            if is_plain(after) {
                assert(after[at] == c);
                assert forall|i: int| 0 <= i < before.len() implies #[trigger] before[i]
                    <= '\u{7f}' by {
                    assert(before[i] == after[i]);
                }
            }
            if is_decimal_text(after) {
                assert(after[at] == c);
                assert forall|i: int| 0 <= i < before.len() implies is_decimal(
                    #[trigger] before[i],
                ) by {
                    assert(before[i] == after[i]);
                }
            }
        }
        if is_numeric(c) {
            kept.push(c);
        }
    }
    proof {
        assert(text@.take(text@.len() as int) == text@);
    }
    number_from_numerals(kept.as_slice())
}

/// What an option says, where it is given.
pub open spec fn text_of(option: Option<&str>) -> Option<Seq<char>> {
    match option {
        Some(text) => Some(text@),
        None => None,
    }
}

/// Reads the number in an option, where the option is given.
fn parse_optional(text: Option<&str>) -> (r: Result<Option<u16>, InputError>)
    ensures
        r == optional_number(text_of(text)),
{
    match text {
        None => Ok(None),
        Some(t) => match parse_number(t) {
            Ok(n) => Ok(Some(n)),
            Err(e) => Err(e),
        },
    }
}

/// Says which searches the options stand for, or what is wrong with them.
pub fn plan_searches(
    query: Option<&str>,
    episode: Option<&str>,
    batch: Option<&str>,
    resolution: Option<&str>,
) -> (r: Result<SearchPlan, InputError>)
    ensures
        match plan_of(text_of(query), text_of(episode), text_of(batch), text_of(resolution)) {
            Ok(plan) => r matches Ok(x) && x@ == plan,
            Err(e) => r == Err::<SearchPlan, InputError>(e),
        },
{
    let chosen: Option<u16> = match resolution {
        None => Some(720),
        Some(text) => {
            if same_text(text, "0") {
                None
            } else {
                match parse_number(text) {
                    Ok(n) => Some(n),
                    Err(e) => {
                        return Err(e);
                    },
                }
            }
        },
    };
    let asked: &str = match query {
        Some(q) => q,
        None => {
            return Err(InputError::MissingQuery);
        },
    };
    let first: Option<u16> = match parse_optional(episode) {
        Ok(n) => n,
        Err(e) => {
            return Err(e);
        },
    };
    let last: Option<u16> = match parse_optional(batch) {
        Ok(n) => n,
        Err(e) => {
            return Err(e);
        },
    };
    let start: u16 = match first {
        Some(e) => e,
        None => 1,
    };
    let end: u16 = match last {
        Some(b) => {
            if b < start {
                return Err(InputError::InvertedRange);
            }
            b
        },
        None => start,
    };
    let mut sent: Vec<u8> = slice_to_vec(asked.as_bytes());
    match chosen {
        Some(r) => {
            sent.push(SPACE);
            let digits = format_decimal(r as u64);
            append(&mut sent, digits.as_slice());
        },
        None => {},
    }
    assert(sent@ == query_bytes(asked@, chosen));
    Ok(SearchPlan { query: sent, first: start, last: end, numbered: first.is_some() || last.is_some() })
}

impl SearchPlan {
    /// The numbers with which the searches are sent, in their order: one for
    /// each search, and `None` for a search that is sent without a number.
    pub fn indices(&self) -> (r: Vec<Option<u32>>)
        ensures
            r@ == plan_indices(self@),
    {
        let mut list: Vec<Option<u32>> = Vec::new();
        if self.first > self.last {
            assert(list@ == plan_indices(self@));
            return list;
        }
        let mut i: u32 = self.first as u32;
        let end: u32 = self.last as u32;
        while i <= end
            invariant
                self.first <= i <= end + 1,
                end == self.last,
                list@ == plan_indices(self@).take(i - self.first),
            decreases end + 1 - i,
        {
            list.push(if self.numbered { Some(i) } else { None });
            proof {
                let all = plan_indices(self@);
                assert(all.take(i + 1 - self.first) == all.take(i - self.first).push(
                    all[i - self.first],
                ));
            }
            i += 1;
        }
        proof {
            let all = plan_indices(self@);
            assert(all.take(all.len() as int) == all);
        }
        list
    }
}

/// The names of the options of the command line, in the order in which they
/// are declared.
pub open spec fn option_names() -> Seq<(Seq<char>, Seq<char>)> {
    seq![
        ("q"@, "query"@),
        ("e"@, "episode"@),
        ("b"@, "batch"@),
        ("r"@, "resolution"@),
        ("h"@, "help"@),
    ]
}

/// Which of the options of the command line take an argument, in the order in
/// which they are declared: all but the last, which asks for help.
pub open spec fn option_arguments() -> Seq<bool> {
    seq![true, true, true, true, false]
}

/// The options of the command line.
fn command_line_options() -> (options: getopts::Options)
    ensures
        declared(options) == option_names(),
        argued(options) == option_arguments(),
{
    proof {
        reveal_strlit("q");
        reveal_strlit("query");
        reveal_strlit("e");
        reveal_strlit("episode");
        reveal_strlit("b");
        reveal_strlit("batch");
        reveal_strlit("r");
        reveal_strlit("resolution");
        reveal_strlit("h");
        reveal_strlit("help");
    }
    let mut options = no_options();
    declare_option(&mut options, "q", "query", "Query to run", "QUERY");
    declare_option(&mut options, "e", "episode", "Episode number", "NUMBER");
    declare_option(&mut options, "b", "batch", "Batch end number", "NUMBER");
    declare_option(&mut options, "r", "resolution", "Resolution", "NUMBER");
    declare_flag(&mut options, "h", "help", "print this help menu");
    assert(declared(options) == option_names());
    assert(argued(options) == option_arguments());
    options
}

/// What the program `program` is asked for with the arguments `arguments`:
/// the searches that its options stand for.
///
/// The options are `-q`, `-e`, `-b` and `-r`, each with an argument, and `-h`.
/// What getopts finds on the command line is named by `found`. Where it
/// refuses the command line, the result is a usage error, with the words of
/// getopts and a line that sums up the options. Where it accepts the command
/// line, the result is what `plan_of` makes of the arguments that it found
/// for the query, the episode, the end of the batch and the resolution.
pub fn parse_command_line(program: &str, arguments: &[String]) -> (r: Result<
    SearchPlan,
    CommandLineError,
>)
    ensures
        match found(option_names(), option_arguments(), argument_texts(arguments@)) {
            Some(given) => match plan_of(given["q"@], given["e"@], given["b"@], given["r"@]) {
                Ok(plan) => r matches Ok(x) && x@ == plan,
                Err(e) => r == Err::<SearchPlan, CommandLineError>(CommandLineError::Input(e)),
            },
            None => r matches Err(CommandLineError::Usage { .. }),
        },
{
    let options = command_line_options();
    proof {
        reveal_strlit("q");
        reveal_strlit("query");
        reveal_strlit("e");
        reveal_strlit("episode");
        reveal_strlit("b");
        reveal_strlit("batch");
        reveal_strlit("r");
        reveal_strlit("resolution");
        reveal_strlit("h");
        reveal_strlit("help");
        assert(option_names().len() == 5);
    }
    let matches = match match_arguments(&options, arguments) {
        Ok(matches) => matches,
        Err(failure) => {
            return Err(
                CommandLineError::Usage {
                    words: failure_words(&failure),
                    usage: usage_line(&options, program),
                },
            );
        },
    };
    proof {
        let known = option_names();
        assert(known[0].0 == "q"@ && known[1].0 == "e"@ && known[2].0 == "b"@ && known[3].0
            == "r"@);
        assert(names_of(known).contains("q"@));
        assert(names_of(known).contains("e"@));
        assert(names_of(known).contains("b"@));
        assert(names_of(known).contains("r"@));
    }
    let resolution = argument_of(&matches, "r");
    let query = argument_of(&matches, "q");
    let episode = argument_of(&matches, "e");
    let batch = argument_of(&matches, "b");
    match plan_searches(
        as_text(&query),
        as_text(&episode),
        as_text(&batch),
        as_text(&resolution),
    ) {
        Ok(plan) => Ok(plan),
        Err(error) => Err(CommandLineError::Input(error)),
    }
}

/// The text of an option, where the option is given.
fn as_text(option: &Option<String>) -> (r: Option<&str>)
    ensures
        match option {
            Some(text) => r matches Some(x) && x@ == text@,
            None => r is None,
        },
        text_of(r) == match option {
            Some(text) => Some(text@),
            None => None,
        },
{
    match option {
        Some(text) => Some(text.as_str()),
        None => None,
    }
}

} // verus!
