//! The text buffer as the layout engine reads it: an ordered sequence of
//! lines, each character with its display width, never changed through this
//! interface.

use std::sync::Arc;
use vstd::prelude::*;
use vstd::string::StrSliceExecFns;

verus! {

/// Line terminators take no column on the screen.
pub open spec fn is_line_end(c: char) -> bool {
    c == '\n' || c == '\r'
}

/// The number of screen columns that a character takes where nothing else is
/// known of it.
pub open spec fn spec_char_width(c: char) -> nat {
    if is_line_end(c) {
        0
    } else {
        1
    }
}

/// The number of screen columns that a character takes where nothing else is
/// known of it.
pub fn char_width(c: char) -> (w: usize)
    ensures
        w == spec_char_width(c),
{
    if c == '\n' || c == '\r' {
        0
    } else {
        1
    }
}

/// Characters between which a line may be broken when words are kept whole.
pub open spec fn spec_is_blank(c: char) -> bool {
    c == ' ' || c == '\t' || c == '\n' || c == '\r'
}

/// Characters between which a line may be broken when words are kept whole.
pub fn is_blank(c: char) -> (b: bool)
    ensures
        b == spec_is_blank(c),
{
    c == ' ' || c == '\t' || c == '\n' || c == '\r'
}

/// A character of a line with the number of screen columns that it takes.
#[derive(Clone, Copy, Debug, PartialEq, Eq, Structural)]
pub struct Glyph {
    pub symbol: char,
    pub width: u8,
}

/// A character with the width that characters have where nothing else is
/// known of them: line terminators none, every other character one column.
pub open spec fn spec_plain(c: char) -> Glyph {
    Glyph { symbol: c, width: spec_char_width(c) as u8 }
}

/// The characters of a string slice, in order.
pub fn chars_of(s: &str) -> (v: Vec<char>)
    ensures
        v@ == s@,
{
    let n = s.unicode_len();
    let mut v: Vec<char> = Vec::new();
    let mut i: usize = 0;
    while i < n
        invariant
            n == s@.len(),
            i <= n,
            v@ == s@.take(i as int),
        decreases n - i,
    {
        v.push(s.get_char(i));
        i += 1;
    }
    v
}

/// The characters of a string slice, in order, each with its plain width.
pub fn glyphs_of(s: &str) -> (v: Vec<Glyph>)
    ensures
        v@ == s@.map_values(|c: char| spec_plain(c)),
{
    let n = s.unicode_len();
    let mut v: Vec<Glyph> = Vec::new();
    let mut i: usize = 0;
    while i < n
        invariant
            n == s@.len(),
            i <= n,
            v@ == s@.take(i as int).map_values(|c: char| spec_plain(c)),
        decreases n - i,
    {
        let c = s.get_char(i);
        let ghost before = v@;
        v.push(Glyph { symbol: c, width: char_width(c) as u8 });
        assert(v@ =~= s@.take(i + 1).map_values(|c: char| spec_plain(c)));
        i += 1;
    }
    assert(s@.take(n as int) =~= s@);
    v
}

/// An ordered sequence of text lines with a revision counter. A line keeps
/// its terminator, if it has one, and each character comes with the number
/// of screen columns that it takes.
#[derive(Debug, Clone)]
pub struct Buffer {
    lines: Vec<Vec<Glyph>>,
    revision: u64,
}

/// A buffer shared between its owner and those who read it.
pub type BufferArc = Arc<Buffer>;

impl View for Buffer {
    type V = Seq<Seq<Glyph>>;

    /// The lines of the buffer.
    closed spec fn view(&self) -> Seq<Seq<Glyph>> {
        Seq::new(self.lines@.len(), |i: int| self.lines@[i]@)
    }
}

impl Buffer {
    pub closed spec fn spec_revision(&self) -> u64 {
        self.revision
    }

    /// A buffer without lines, at revision 0.
    pub fn new() -> (b: Self)
        ensures
            b@ == Seq::<Seq<Glyph>>::empty(),
            b.spec_revision() == 0,
    {
        Buffer { lines: Vec::new(), revision: 0 }
    }

    /// A buffer that holds the given lines, at the given revision, each
    /// character with its plain width.
    pub fn from_lines(lines: &Vec<&str>, revision: u64) -> (b: Self)
        ensures
            b@.len() == lines@.len(),
            forall|i: int|
                0 <= i < lines@.len() ==> b@[i] == (#[trigger] lines@[i])@.map_values(
                    |c: char| spec_plain(c),
                ),
            b.spec_revision() == revision,
    {
        let mut out: Vec<Vec<Glyph>> = Vec::new();
        let mut i: usize = 0;
        while i < lines.len()
            invariant
                i <= lines.len(),
                out@.len() == i,
                forall|j: int|
                    0 <= j < i ==> (#[trigger] out@[j])@ == lines@[j]@.map_values(
                        |c: char| spec_plain(c),
                    ),
            decreases lines.len() - i,
        {
            out.push(glyphs_of(lines[i]));
            i += 1;
        }
        Buffer { lines: out, revision }
    }

    /// A buffer that holds the given lines, at the given revision, each
    /// character with the width that it is given.
    pub fn from_glyphs(lines: Vec<Vec<Glyph>>, revision: u64) -> (b: Self)
        ensures
            b@.len() == lines@.len(),
            forall|i: int| 0 <= i < lines@.len() ==> b@[i] == (#[trigger] lines@[i])@,
            b.spec_revision() == revision,
    {
        Buffer { lines, revision }
    }

    /// The buffer behind a shared handle.
    pub fn to_arc(b: Buffer) -> (a: BufferArc)
        ensures
            *a == b,
    {
        Arc::new(b)
    }

    pub fn revision(&self) -> (r: u64)
        ensures
            r == self.spec_revision(),
    {
        self.revision
    }

    pub fn len_lines(&self) -> (n: usize)
        ensures
            n == self@.len(),
    {
        self.lines.len()
    }

    /// The characters of line `idx`, if the buffer has such a line.
    pub fn line(&self, idx: usize) -> (l: Option<&Vec<Glyph>>)
        ensures
            match l {
                Some(glyphs) => idx < self@.len() && glyphs@ == self@[idx as int],
                None => idx >= self@.len(),
            },
    {
        if idx < self.lines.len() {
            Some(&self.lines[idx])
        } else {
            None
        }
    }
}

} // verus!
