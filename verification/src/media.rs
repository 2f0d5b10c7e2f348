//! Which offers are media files, going by the extension of the file's name.
//!
//! The name is the last component of the path: what follows the last slash,
//! once slashes at the end of the path are left out, and dots that stand
//! there as components of their own. The extension is what follows the last
//! dot of the name. A name without a dot has no extension, nor has one whose
//! only dot is its first byte. A path that ends in `..`, and one without any
//! component, has no name.

use vstd::prelude::*;
use vstd::slice::slice_subrange;
use crate::dcc::{DOT, SLASH};
use crate::text::{ascii, ascii_bytes, bytes_eq};

verus! {

/// What the extension of a file's name says of the file.
#[derive(Debug, Clone, Copy, PartialEq, Eq, Structural)]
pub enum MediaKind {
    /// The extension is one of a sound file or of a video file.
    Media,
    /// The extension is none of a media file.
    NotMedia,
    /// The name has no extension.
    NoExtension,
}

/// The index after the last `mark` before `to`, or 0 where there is none.
pub open spec fn after_last(s: Seq<u8>, mark: u8, to: int) -> int
    decreases to,
{
    if 0 < to <= s.len() && s[to - 1] != mark {
        after_last(s, mark, to - 1)
    } else {
        to
    }
}

/// The length of `path` up to `to` without what stands at its end and names
/// nothing: slashes, and a dot that follows a slash.
pub open spec fn trimmed(path: Seq<u8>, to: int) -> int
    decreases to,
{
    if 0 < to <= path.len() && path[to - 1] == SLASH {
        trimmed(path, to - 1)
    } else if 2 <= to <= path.len() && path[to - 1] == DOT && path[to - 2] == SLASH {
        trimmed(path, to - 2)
    } else {
        to
    }
}

/// The name of the file at `path`: its last component, if that is a name.
pub open spec fn file_name(path: Seq<u8>) -> Option<Seq<u8>> {
    let end = trimmed(path, path.len() as int);
    let name = path.subrange(after_last(path, SLASH, end), end);
    if name.len() == 0 || name == seq![DOT] || name == seq![DOT, DOT] {
        None
    } else {
        Some(name)
    }
}

/// The extension of the name of the file at `path`, if it has one.
pub open spec fn extension_of(path: Seq<u8>) -> Option<Seq<u8>> {
    match file_name(path) {
        None => None,
        Some(name) => {
            let start = after_last(name, DOT, name.len() as int);
            if start > 1 {
                Some(name.skip(start))
            } else {
                None
            }
        },
    }
}

/// Whether `extension` is one of a sound file.
pub open spec fn is_audio(extension: Seq<u8>) -> bool {
    ||| extension == ascii("aif"@)
    ||| extension == ascii("cda"@)
    ||| extension == ascii("mid"@)
    ||| extension == ascii("midi"@)
    ||| extension == ascii("mp3"@)
    ||| extension == ascii("mpa"@)
    ||| extension == ascii("ogg"@)
    ||| extension == ascii("wav"@)
    ||| extension == ascii("wma"@)
    ||| extension == ascii("wpl"@)
}

/// Whether `extension` is one of a video file.
pub open spec fn is_video(extension: Seq<u8>) -> bool {
    ||| extension == ascii("3g2"@)
    ||| extension == ascii("3gp"@)
    ||| extension == ascii("avi"@)
    ||| extension == ascii("flv"@)
    ||| extension == ascii("h264"@)
    ||| extension == ascii("m4v"@)
    ||| extension == ascii("mkv"@)
    ||| extension == ascii("mov"@)
    ||| extension == ascii("mp4"@)
    ||| extension == ascii("mpg"@)
    ||| extension == ascii("mpeg"@)
    ||| extension == ascii("rm"@)
    ||| extension == ascii("swf"@)
    ||| extension == ascii("vob"@)
    ||| extension == ascii("wmv"@)
}

/// What the extension of `filename` says of the file.
pub open spec fn media_kind(filename: Seq<u8>) -> MediaKind {
    match extension_of(filename) {
        None => MediaKind::NoExtension,
        Some(extension) => if is_audio(extension) || is_video(extension) {
            MediaKind::Media
        } else {
            MediaKind::NotMedia
        },
    }
}

/// The index after the last `mark` before `to`, or 0.
fn scan_back(s: &[u8], mark: u8, to: usize) -> (r: usize)
    requires
        to <= s.len(),
    ensures
        r == after_last(s@, mark, to as int),
        r <= to,
{
    let mut i: usize = to;
    while i > 0 && s[i - 1] != mark
        invariant
            0 <= i <= to <= s.len(),
            after_last(s@, mark, to as int) == after_last(s@, mark, i as int),
        decreases i,
    {
        i -= 1;
    }
    i
}

/// The length of `path` without the slashes and lone dots at its end.
fn trim(path: &[u8]) -> (r: usize)
    ensures
        r == trimmed(path@, path@.len() as int),
        r <= path.len(),
{
    let mut i: usize = path.len();
    loop
        invariant
            0 <= i <= path.len(),
            trimmed(path@, path@.len() as int) == trimmed(path@, i as int),
        ensures
            i == trimmed(path@, path@.len() as int),
        decreases i,
    {
        if i > 0 && path[i - 1] == SLASH {
            i -= 1;
        } else if i >= 2 && path[i - 1] == DOT && path[i - 2] == SLASH {
            i -= 2;
        } else {
            break;
        }
    }
    i
}

/// Whether `extension` is one of a sound file.
fn audio(extension: &[u8]) -> (r: bool)
    ensures
        r == is_audio(extension@),
{
    proof {
        reveal_strlit("aif");
        reveal_strlit("cda");
        reveal_strlit("mid");
        reveal_strlit("midi");
        reveal_strlit("mp3");
        reveal_strlit("mpa");
        reveal_strlit("ogg");
        reveal_strlit("wav");
        reveal_strlit("wma");
        reveal_strlit("wpl");
    }
    bytes_eq(extension, ascii_bytes("aif")) || bytes_eq(extension, ascii_bytes("cda")) || bytes_eq(
        extension,
        ascii_bytes("mid"),
    ) || bytes_eq(extension, ascii_bytes("midi")) || bytes_eq(extension, ascii_bytes("mp3"))
        || bytes_eq(extension, ascii_bytes("mpa")) || bytes_eq(extension, ascii_bytes("ogg"))
        || bytes_eq(extension, ascii_bytes("wav")) || bytes_eq(extension, ascii_bytes("wma"))
        || bytes_eq(extension, ascii_bytes("wpl"))
}

/// Whether `extension` is one of a video file.
fn video(extension: &[u8]) -> (r: bool)
    ensures
        r == is_video(extension@),
{
    proof {
        reveal_strlit("3g2");
        reveal_strlit("3gp");
        reveal_strlit("avi");
        reveal_strlit("flv");
        reveal_strlit("h264");
        reveal_strlit("m4v");
        reveal_strlit("mkv");
        reveal_strlit("mov");
        reveal_strlit("mp4");
        reveal_strlit("mpg");
        reveal_strlit("mpeg");
        reveal_strlit("rm");
        reveal_strlit("swf");
        reveal_strlit("vob");
        reveal_strlit("wmv");
    }
    bytes_eq(extension, ascii_bytes("3g2")) || bytes_eq(extension, ascii_bytes("3gp")) || bytes_eq(
        extension,
        ascii_bytes("avi"),
    ) || bytes_eq(extension, ascii_bytes("flv")) || bytes_eq(extension, ascii_bytes("h264"))
        || bytes_eq(extension, ascii_bytes("m4v")) || bytes_eq(extension, ascii_bytes("mkv"))
        || bytes_eq(extension, ascii_bytes("mov")) || bytes_eq(extension, ascii_bytes("mp4"))
        || bytes_eq(extension, ascii_bytes("mpg")) || bytes_eq(extension, ascii_bytes("mpeg"))
        || bytes_eq(extension, ascii_bytes("rm")) || bytes_eq(extension, ascii_bytes("swf"))
        || bytes_eq(extension, ascii_bytes("vob")) || bytes_eq(extension, ascii_bytes("wmv"))
}

/// Says what the extension of `filename` says of the file.
pub fn classify(filename: &[u8]) -> (r: MediaKind)
    ensures
        r == media_kind(filename@),
{
    let end: usize = trim(filename);
    let begin: usize = scan_back(filename, SLASH, end);
    let name = slice_subrange(filename, begin, end);
    let count: usize = name.len();
    if count == 0 || (count == 1 && name[0] == DOT) || (count == 2 && name[0] == DOT && name[1]
        == DOT) {
        proof {
            if count == 1 {
                assert(name@ == seq![DOT]);
            }
            if count == 2 {
                assert(name@ == seq![DOT, DOT]);
            }
        }
        return MediaKind::NoExtension;
    }
    proof {
        assert(name@ != seq![DOT]) by {
            if name@ == seq![DOT] {
                assert(name@.len() == 1 && name@[0] == DOT);
            }
        }
        assert(name@ != seq![DOT, DOT]) by {
            if name@ == seq![DOT, DOT] {
                assert(name@.len() == 2 && name@[0] == DOT && name@[1] == DOT);
            }
        }
    }
    let start: usize = scan_back(name, DOT, count);
    if start <= 1 {
        return MediaKind::NoExtension;
    }
    let extension = slice_subrange(name, start, count);
    proof {
        assert(name@.subrange(start as int, count as int) == name@.skip(start as int));
    }
    if audio(extension) || video(extension) {
        MediaKind::Media
    } else {
        MediaKind::NotMedia
    }
}

} // verus!
