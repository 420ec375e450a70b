//! Rows and columns of character offsets, for diagnostics.
use vstd::prelude::*;
use crate::text::{chars_of, push_char};

verus! {

/// The number of newlines among the first `k` characters of `s`.
pub open spec fn newlines_before(s: Seq<char>, k: int) -> nat
    decreases k,
{
    if k <= 0 {
        0
    } else {
        newlines_before(s, k - 1) + if s[k - 1] == '\n' {
            1nat
        } else {
            0nat
        }
    }
}

/// The offset at which the line holding offset `k` starts.
pub open spec fn line_start_of(s: Seq<char>, k: int) -> int
    decreases k,
{
    if k <= 0 {
        0
    } else if s[k - 1] == '\n' {
        k
    } else {
        line_start_of(s, k - 1)
    }
}

/// Where a character offset lies in a text: its row (from 1), its column (from
/// 0) and the offset at which its line starts.
#[derive(Clone, Copy, Debug)]
pub struct TrackedString {
    pub offset: usize,
    pub row: usize,
    pub column: usize,
    pub line_start: usize,
}

impl TrackedString {
    /// Whether this locates `self.offset` in `s`.
    pub open spec fn locates(&self, s: Seq<char>) -> bool {
        &&& self.offset <= s.len()
        &&& self.row as int == 1 + newlines_before(s, self.offset as int)
        &&& self.line_start as int == line_start_of(s, self.offset as int)
        &&& self.column as int == self.offset - self.line_start
    }

    /// Locates character offset `offset` in `text`.
    pub fn locate(text: &str, offset: usize) -> (r: TrackedString)
        requires
            offset <= text@.len(),
            offset < usize::MAX,
        ensures
            r.locates(text@),
            r.offset == offset,
    {
        let s = chars_of(text);
        let mut newlines: usize = 0;
        let mut start: usize = 0;
        let mut j: usize = 0;
        while j < offset
            invariant
                s@ == text@,
                offset <= s.len(),
                j <= offset,
                newlines_before(s@, j as int) <= j,
                newlines as int == newlines_before(s@, j as int),
                start as int == line_start_of(s@, j as int),
                start <= j,
            decreases offset - j,
        {
            if s[j] == '\n' {
                newlines = newlines + 1;
                start = j + 1;
            }
            j = j + 1;
        }
        TrackedString { offset, row: newlines + 1, column: offset - start, line_start: start }
    }

    /// The row, counted from 1.
    pub fn row(&self) -> (r: usize)
        ensures
            r == self.row,
    {
        self.row
    }

    /// The column, counted from 0.
    pub fn column(&self) -> (r: usize)
        ensures
            r == self.column,
    {
        self.column
    }

    /// The offset at which the line starts.
    pub fn line_start(&self) -> (r: usize)
        ensures
            r == self.line_start,
    {
        self.line_start
    }
}

/// The characters of `text` from offset `start` up to the next newline or the
/// end.
pub fn line_text(text: &str, start: usize) -> (r: String)
    ensures
        start <= text@.len() ==> exists|e: int|
            #![trigger text@.subrange(start as int, e)]
            start <= e <= text@.len() && r@ == text@.subrange(start as int, e) && (e == text@.len()
                || text@[e] == '\n') && forall|k: int| start <= k < e ==> text@[k] != '\n',
        start > text@.len() ==> r@.len() == 0,
{
    let s = chars_of(text);
    let mut r = String::new();
    if start > s.len() {
        return r;
    }
    let mut j = start;
    while j < s.len() && s[j] != '\n'
        invariant
            s@ == text@,
            start <= j <= s.len(),
            r@ == s@.subrange(start as int, j as int),
            forall|k: int| start <= k < j ==> s@[k] != '\n',
        decreases s.len() - j,
    {
        push_char(&mut r, s[j]);
        assert(s@.subrange(start as int, j + 1) =~= s@.subrange(start as int, j as int).push(s@[j as int]));
        j = j + 1;
    }
    assert(start <= j <= text@.len() && r@ == text@.subrange(start as int, j as int) && (j
        == text@.len() || text@[j as int] == '\n') && forall|k: int| start <= k < j ==> text@[k] != '\n');
    r
}

} // verus!
