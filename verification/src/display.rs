//! The text beside a progress bar, cut to the width of the terminal.
//!
//! A bar gets half the width of the terminal for its text. A file name that is
//! longer is shown by its two ends, or by its end alone on a narrower
//! terminal. On one that is narrower still, and where the width is not known,
//! no bar is drawn: the name is printed once as a line.

use vstd::prelude::*;
use vstd::utf8::encode_utf8;

verus! {

/// Calls `term_size::dimensions`, which asks the system for the size of the
/// terminal and gives its width and height in characters, or nothing where
/// no terminal is attached. Nothing is stated of what it gives.
#[verifier::external_body]
fn terminal_dimensions() -> (size: Option<(usize, usize)>) {
    term_size::dimensions()
}

/// The text that goes with one file, and whether a bar can be drawn for it.
#[derive(Debug, Clone, PartialEq, Eq)]
pub struct BarLabel {
    /// The text.
    pub text: String,
    /// Whether the text leaves room for a bar.
    pub fits: bool,
}

/// What a `BarLabel` holds.
pub struct BarLabelView {
    pub text: Seq<char>,
    pub fits: bool,
}

impl View for BarLabel {
    type V = BarLabelView;

    open spec fn view(&self) -> BarLabelView {
        BarLabelView { text: self.text@, fits: self.fits }
    }
}

/// What each of a list of labels holds.
pub open spec fn label_views(list: Seq<BarLabel>) -> Seq<BarLabelView> {
    Seq::new(list.len(), |i: int| list[i]@)
}

/// The text of each of a list of names.
pub open spec fn texts(names: Seq<String>) -> Seq<Seq<char>> {
    Seq::new(names.len(), |i: int| names[i]@)
}

/// The label of a file without a bar: its name as a line of its own.
pub open spec fn line_label(name: Seq<char>) -> BarLabelView {
    BarLabelView { text: name + " added to list"@, fits: false }
}

/// The label of the file `name` on a terminal of the width `width`.
///
/// The text may take half the width. A name of no more bytes than that is
/// shown whole. Of a longer name a quarter of the width is shown from its
/// start, with dots behind it, if the text may take more than 50 characters;
/// and one character more than a quarter of the width is shown from its end,
/// if the text may take more than 35. A name that has too few characters to
/// be cut so is shown whole. Where the text may take no more than 35
/// characters, and where the width is not known, there is no bar.
pub open spec fn label_of(name: Seq<char>, width: Option<usize>) -> BarLabelView {
    match width {
        None => line_label(name),
        Some(w) => {
            let room = w / 2;
            let cut = room / 2;
            if encode_utf8(name).len() <= room || name.len() <= cut {
                BarLabelView { text: name + ": "@, fits: true }
            } else if room > 50 {
                BarLabelView {
                    text: name.take(cut as int) + "..."@ + name.skip(name.len() - cut - 1)
                        + ": "@,
                    fits: true,
                }
            } else if room > 35 {
                BarLabelView { text: "..."@ + name.skip(name.len() - cut - 1) + ": "@, fits: true }
            } else {
                line_label(name)
            }
        },
    }
}

/// The labels of the files `names` on a terminal of the width `width`, in
/// their order.
pub open spec fn labels_of(names: Seq<Seq<char>>, width: Option<usize>) -> Seq<BarLabelView> {
    Seq::new(names.len(), |i: int| label_of(names[i], width))
}

/// Whether a bar is drawn for the file at `i`: its label and the labels of
/// all files before it leave room for one. After one line without a bar, no
/// further bar is drawn.
pub open spec fn draws_bar(labels: Seq<BarLabelView>, i: int) -> bool {
    forall|k: int| 0 <= k <= i ==> (#[trigger] labels[k]).fits
}

/// Says what goes with the file `name` on a terminal of the width `width`.
pub fn label(name: &str, width: Option<usize>) -> (r: BarLabel)
    ensures
        r@ == label_of(name@, width),
{
    let w: usize = match width {
        Some(w) => w,
        None => {
            return BarLabel { text: name.to_owned().concat(" added to list"), fits: false };
        },
    };
    let room: usize = w / 2;
    let cut: usize = room / 2;
    if name.as_bytes().len() <= room {
        return BarLabel { text: name.to_owned().concat(": "), fits: true };
    }
    let count: usize = name.unicode_len();
    if count <= cut {
        return BarLabel { text: name.to_owned().concat(": "), fits: true };
    }
    if room > 50 {
        let head = name.substring_char(0, cut);
        let tail = name.substring_char(count - cut - 1, count);
        let text = head.to_owned().concat("...").concat(tail).concat(": ");
        assert(head@ == name@.take(cut as int));
        assert(tail@ == name@.skip(name@.len() - cut - 1));
        BarLabel { text, fits: true }
    } else if room > 35 {
        let tail = name.substring_char(count - cut - 1, count);
        let text = String::from_str("...").concat(tail).concat(": ");
        assert(tail@ == name@.skip(name@.len() - cut - 1));
        BarLabel { text, fits: true }
    } else {
        BarLabel { text: name.to_owned().concat(" added to list"), fits: false }
    }
}

/// Says what goes with each of the files `names` on a terminal of the width
/// `width`.
pub fn labels_for(names: &Vec<String>, width: Option<usize>) -> (r: Vec<BarLabel>)
    ensures
        label_views(r@) == labels_of(texts(names@), width),
{
    let mut list: Vec<BarLabel> = Vec::new();
    let mut i: usize = 0;
    while i < names.len()
        invariant
            0 <= i <= names.len(),
            list.len() == i,
            forall|k: int| 0 <= k < i ==> (#[trigger] list[k])@ == label_of(names[k]@, width),
        decreases names.len() - i,
    {
        list.push(label(names[i].as_str(), width));
        i += 1;
    }
    assert(label_views(list@) == labels_of(texts(names@), width));
    list
}

/// Says what goes with each of the files `names` on the terminal that the
/// program runs on. The width is what the system reports at this moment, and
/// unknown where it reports none.
pub fn labels(names: &Vec<String>) -> (r: Vec<BarLabel>)
    ensures
        exists|width: Option<usize>| label_views(r@) == #[trigger] labels_of(texts(names@), width),
{
    let width: Option<usize> = match terminal_dimensions() {
        Some((w, _)) => Some(w),
        None => None,
    };
    labels_for(names, width)
}

/// Whether a bar is drawn for the file at `i`.
pub fn bar_drawn(labels: &Vec<BarLabel>, i: usize) -> (r: bool)
    ensures
        i < labels.len() ==> r == draws_bar(label_views(labels@), i as int),
        i >= labels.len() ==> !r,
{
    if i >= labels.len() {
        return false;
    }
    let mut k: usize = 0;
    while k <= i
        invariant
            0 <= k <= i + 1,
            i < labels.len(),
            forall|t: int| 0 <= t < k ==> (#[trigger] label_views(labels@)[t]).fits,
        decreases i + 1 - k,
    {
        if !labels[k].fits {
            assert(!label_views(labels@)[k as int].fits);
            return false;
        }
        k += 1;
    }
    true
}

} // verus!
