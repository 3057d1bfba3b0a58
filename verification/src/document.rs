//! In-memory documents: source text with a line index that converts between the
//! byte-offset spans the compiler produces and the line/column positions an editor
//! speaks. Columns are UTF-16 code units.

use vstd::prelude::*;
use crate::offsets::{byte_off, byte_off_grows, utf16_len, utf16_width, utf16_width_of, Chars};
use crate::span::Span;

verus! {

/// A place in a document: a line and a column, both counted from 0.
#[derive(Clone, Copy, Debug, PartialEq, Eq, Structural)]
pub struct Position {
    pub line: u32,
    pub character: u32,
}

/// A half-open stretch of a document.
#[derive(Clone, Copy, Debug, PartialEq, Eq, Structural)]
pub struct Range {
    pub start: Position,
    pub end: Position,
}

// ---- lines ----

/// The number of line feeds among the first `k` characters.
pub open spec fn newlines(cs: Seq<char>, k: int) -> nat
    decreases k,
{
    if k <= 0 {
        0
    } else {
        newlines(cs, k - 1) + (if cs[k - 1] == '\n' {
            1nat
        } else {
            0nat
        })
    }
}

/// The index at which the line that holds position `k` begins.
pub open spec fn line_begin(cs: Seq<char>, k: int) -> int
    decreases k,
{
    if k <= 0 {
        0
    } else if cs[k - 1] == '\n' {
        k
    } else {
        line_begin(cs, k - 1)
    }
}

/// The indices at which the lines among the first `n` characters begin.
pub open spec fn line_begins(cs: Seq<char>, n: int) -> Seq<int>
    decreases n,
{
    if n <= 0 {
        seq![0]
    } else if cs[n - 1] == '\n' {
        line_begins(cs, n - 1).push(n)
    } else {
        line_begins(cs, n - 1)
    }
}

/// The indices at which the lines of a text begin.
pub open spec fn lines(cs: Seq<char>) -> Seq<int> {
    line_begins(cs, cs.len() as int)
}

proof fn line_begins_facts(cs: Seq<char>, n: int)
    requires
        0 <= n <= cs.len(),
    ensures
        line_begins(cs, n).len() == newlines(cs, n) + 1,
        line_begins(cs, n).last() == line_begin(cs, n),
        newlines(cs, n) <= n,
        line_begins(cs, n)[0] == 0,
        forall|i: int| 0 <= i < line_begins(cs, n).len() ==> 0 <= #[trigger] line_begins(cs, n)[i]
            <= n,
        forall|i: int, j: int|
            0 <= i < j < line_begins(cs, n).len() ==> (#[trigger] line_begins(cs, n)[i]) < (
            #[trigger] line_begins(cs, n)[j]),
    decreases n,
{
    if n > 0 {
        line_begins_facts(cs, n - 1);
    }
}

proof fn line_begins_prefix(cs: Seq<char>, k: int, n: int)
    requires
        0 <= k <= n <= cs.len(),
    ensures
        line_begins(cs, k).len() <= line_begins(cs, n).len(),
        forall|i: int|
            0 <= i < line_begins(cs, k).len() ==> #[trigger] line_begins(cs, n)[i] == line_begins(
                cs,
                k,
            )[i],
        forall|i: int|
            line_begins(cs, k).len() <= i < line_begins(cs, n).len() ==> k < #[trigger] line_begins(
                cs,
                n,
            )[i],
    decreases n,
{
    if k < n {
        line_begins_prefix(cs, k, n - 1);
    }
}

/// The line that holds position `k` is the last one that begins at or before `k`.
proof fn line_of(cs: Seq<char>, k: int)
    requires
        0 <= k <= cs.len(),
    ensures
        newlines(cs, k) < lines(cs).len(),
        lines(cs)[newlines(cs, k) as int] == line_begin(cs, k),
        0 <= line_begin(cs, k) <= k,
        newlines(cs, k) <= k,
        forall|i: int| newlines(cs, k) < i < lines(cs).len() ==> k < #[trigger] lines(cs)[i],
{
    line_begins_facts(cs, k);
    line_begins_prefix(cs, k, cs.len() as int);
}

proof fn utf16_within_bytes(cs: Seq<char>, lo: int, hi: int)
    requires
        0 <= lo <= hi <= cs.len(),
    ensures
        utf16_len(cs, lo, hi) <= byte_off(cs, hi) - byte_off(cs, lo),
    decreases hi - lo,
{
    if lo < hi {
        utf16_within_bytes(cs, lo, hi - 1);
    }
}

// ---- positions ----

/// Whether byte offset `off` is where the `k`-th character begins.
pub open spec fn begins_at(cs: Seq<char>, off: int, k: int) -> bool {
    0 <= k <= cs.len() && byte_off(cs, k) == off
}

/// Whether a byte offset falls between two characters, or past the end.
pub open spec fn on_boundary(cs: Seq<char>, off: int) -> bool {
    off > byte_off(cs, cs.len() as int) || exists|k: int| begins_at(cs, off, k)
}

/// The index of the character that begins at a byte offset; past the end, the length.
pub open spec fn index_at(cs: Seq<char>, off: int) -> int {
    if off > byte_off(cs, cs.len() as int) {
        cs.len() as int
    } else {
        choose|k: int| begins_at(cs, off, k)
    }
}

/// The line and column of position `k`.
pub open spec fn position_of(cs: Seq<char>, k: int) -> (nat, nat) {
    (newlines(cs, k), utf16_len(cs, line_begin(cs, k), k))
}

/// How far a column of `width` code units reaches from `b`, stopping at `e` and before
/// a character that does not fit.
pub open spec fn reach(cs: Seq<char>, b: int, e: int, width: int) -> int
    decreases e - b,
{
    if b >= e || utf16_width(cs[b]) > width {
        b
    } else {
        reach(cs, b + 1, e, width - utf16_width(cs[b]))
    }
}

/// The index where line `line` ends: where the next one begins, or the end of the text.
pub open spec fn line_end(cs: Seq<char>, line: int) -> int {
    if line + 1 < lines(cs).len() {
        lines(cs)[line + 1]
    } else {
        cs.len() as int
    }
}

/// The index a line and a column stand for: a line past the last one stands for the
/// end of the text, a column past the end of its line for the end of the line.
pub open spec fn index_of(cs: Seq<char>, line: int, character: int) -> int {
    if line >= lines(cs).len() {
        cs.len() as int
    } else {
        reach(cs, lines(cs)[line], line_end(cs, line), character)
    }
}

impl Position {
    /// Whether this is the given line and column.
    pub open spec fn is(self, p: (nat, nat)) -> bool {
        self.line == p.0 && self.character == p.1
    }
}

/// Offsets tell characters apart.
pub proof fn begins_at_unique(cs: Seq<char>, off: int, a: int, b: int)
    requires
        begins_at(cs, off, a),
        begins_at(cs, off, b),
    ensures
        a == b,
{
    if a < b {
        byte_off_grows(cs, a, b);
    } else if b < a {
        byte_off_grows(cs, b, a);
    }
}

proof fn reach_exact(cs: Seq<char>, b: int, k: int, e: int)
    requires
        0 <= b <= k <= e <= cs.len(),
    ensures
        reach(cs, b, e, utf16_len(cs, b, k) as int) == k,
    decreases k - b,
{
    if b < k {
        utf16_first(cs, b, k);
        reach_exact(cs, b + 1, k, e);
    }
}

proof fn utf16_first(cs: Seq<char>, b: int, k: int)
    requires
        0 <= b < k <= cs.len(),
    ensures
        utf16_len(cs, b, k) == utf16_width(cs[b]) + utf16_len(cs, b + 1, k),
    decreases k - b,
{
    if b + 1 < k {
        utf16_first(cs, b, k - 1);
    } else {
        assert(utf16_len(cs, b, b) == 0);
        assert(utf16_len(cs, k, k) == 0);
    }
}

/// Turning a position between two characters into a line and a column and back gives
/// the same position.
pub proof fn position_round_trip(cs: Seq<char>, k: int)
    requires
        0 <= k <= cs.len(),
    ensures
        index_of(cs, position_of(cs, k).0 as int, position_of(cs, k).1 as int) == k,
{
    line_of(cs, k);
    line_begins_facts(cs, cs.len() as int);
    let line = newlines(cs, k) as int;
    assert(line_end(cs, line) >= k);
    assert(line_end(cs, line) <= cs.len());
    reach_exact(cs, line_begin(cs, k), k, line_end(cs, line));
}

proof fn reach_within(cs: Seq<char>, b: int, e: int, width: int)
    requires
        b <= e,
    ensures
        b <= reach(cs, b, e, width) <= e,
    decreases e - b,
{
    if b < e && utf16_width(cs[b]) <= width {
        reach_within(cs, b + 1, e, width - utf16_width(cs[b]));
    }
}

/// A line and a column always stand for a position in the text.
pub proof fn index_within(cs: Seq<char>, line: int, character: int)
    requires
        0 <= line,
    ensures
        0 <= index_of(cs, line, character) <= cs.len(),
        byte_off(cs, index_of(cs, line, character)) <= byte_off(cs, cs.len() as int),
{
    if line < lines(cs).len() {
        line_begins_facts(cs, cs.len() as int);
        if line + 1 < lines(cs).len() {
            assert(lines(cs)[line] < lines(cs)[line + 1]);
        }
        reach_within(cs, lines(cs)[line], line_end(cs, line), character);
    }
    let k = index_of(cs, line, character);
    if k < cs.len() {
        byte_off_grows(cs, k, cs.len() as int);
    }
}

/// A later position has a later line, or the same line and a later column.
pub proof fn positions_are_ordered(cs: Seq<char>, j: int, k: int)
    requires
        0 <= j < k <= cs.len(),
    ensures
        position_of(cs, j).0 < position_of(cs, k).0 || (position_of(cs, j).0 == position_of(
            cs,
            k,
        ).0 && position_of(cs, j).1 < position_of(cs, k).1),
    decreases k,
{
    line_of(cs, j);
    line_of(cs, k - 1);
    if j < k - 1 {
        positions_are_ordered(cs, j, k - 1);
    }
}

// ---- the index ----

/// Whether `starts` holds the byte offsets at which the lines of `cs` begin.
pub open spec fn indexes(starts: Seq<usize>, cs: Seq<char>) -> bool {
    starts.len() == lines(cs).len() && forall|i: int|
        0 <= i < starts.len() ==> #[trigger] starts[i] == byte_off(cs, lines(cs)[i])
}

/// The byte offset at which each line begins.
pub fn line_starts(text: &str) -> (r: Vec<usize>)
    ensures
        indexes(r@, text@),
{
    let chars = Chars::of(text);
    let mut starts: Vec<usize> = Vec::new();
    starts.push(0);
    for i in 0..chars.cs.len()
        invariant
            chars.wf(),
            chars.cs@ == text@,
            starts.len() == line_begins(text@, i as int).len(),
            forall|j: int|
                0 <= j < starts.len() ==> #[trigger] starts[j] == byte_off(
                    text@,
                    line_begins(text@, i as int)[j],
                ),
    {
        if chars.cs[i] == '\n' {
            starts.push(chars.off(i + 1));
        }
    }
    starts
}

/// The last of the increasing offsets that is at most `off`.
fn find_last(starts: &Vec<usize>, off: usize) -> (r: usize)
    requires
        starts.len() > 0,
        starts[0] == 0,
        forall|i: int, j: int|
            0 <= i < j < starts.len() ==> (#[trigger] starts[i]) < (#[trigger] starts[j]),
    ensures
        r < starts.len(),
        starts[r as int] <= off,
        forall|i: int| r < i < starts.len() ==> off < #[trigger] starts[i],
{
    let mut lo: usize = 0;
    let mut hi: usize = starts.len();
    while lo + 1 < hi
        invariant
            lo < hi <= starts.len(),
            starts[lo as int] <= off,
            forall|i: int, j: int|
                0 <= i < j < starts.len() ==> (#[trigger] starts[i]) < (#[trigger] starts[j]),
            forall|i: int| hi <= i < starts.len() ==> off < #[trigger] starts[i],
        decreases hi - lo,
    {
        let mid = lo + (hi - lo) / 2;
        if starts[mid] <= off {
            lo = mid;
        } else {
            hi = mid;
        }
    }
    lo
}

/// The index of the character that begins at byte offset `off`.
pub fn find_index(chars: &Chars, off: usize) -> (r: usize)
    requires
        chars.wf(),
        exists|k: int| begins_at(chars.cs@, off as int, k),
    ensures
        begins_at(chars.cs@, off as int, r as int),
{
    let ghost cs = chars.cs@;
    let ghost k = choose|k: int| begins_at(cs, off as int, k);
    proof {
        assert forall|i: int, j: int| 0 <= i < j < chars.offs.len() implies (
        #[trigger] chars.offs[i]) < (#[trigger] chars.offs[j]) by {
            byte_off_grows(cs, i, j);
        }
        assert(chars.offs[0] == byte_off(cs, 0));
    }
    let r = find_last(&chars.offs, off);
    proof {
        assert(chars.offs[k] == off);
        if r < k {
            assert(off < chars.offs[k]);
        } else if k < r {
            byte_off_grows(cs, k, r as int);
        }
    }
    r
}

/// The position of the `k`-th character of a text whose lines begin at `starts`.
pub fn position_in(starts: &Vec<usize>, chars: &Chars, k: usize) -> (r: Position)
    requires
        indexes(starts@, chars.cs@),
        chars.wf(),
        k <= chars.cs.len(),
        byte_off(chars.cs@, chars.cs@.len() as int) <= u32::MAX,
    ensures
        r.is(position_of(chars.cs@, k as int)),
{
    let ghost cs = chars.cs@;
    let off = chars.off(k);
    proof {
        line_begins_facts(cs, cs.len() as int);
        assert forall|i: int, j: int| 0 <= i < j < starts.len() implies (#[trigger] starts[i]) < (
        #[trigger] starts[j]) by {
            byte_off_grows(cs, lines(cs)[i], lines(cs)[j]);
        }
        assert(starts[0] == byte_off(cs, 0));
    }
    let line = find_last(starts, off);
    proof {
        line_of(cs, k as int);
        let n = newlines(cs, k as int) as int;
        assert(starts[n] == byte_off(cs, line_begin(cs, k as int)));
        if line_begin(cs, k as int) < k {
            byte_off_grows(cs, line_begin(cs, k as int), k as int);
        }
        if line > n {
            assert(k < lines(cs)[line as int]);
            byte_off_grows(cs, k as int, lines(cs)[line as int]);
        }
        assert(line == n);
        assert(begins_at(cs, starts[n] as int, line_begin(cs, k as int)));
        if k < cs.len() {
            byte_off_grows(cs, k as int, cs.len() as int);
        }
        if 0 < cs.len() {
            byte_off_grows(cs, 0, cs.len() as int);
        }
    }
    let begin = find_index(chars, starts[line]);
    proof {
        begins_at_unique(cs, starts[line as int] as int, begin as int, line_begin(cs, k as int));
    }
    let character = width16(chars, begin, k);
    Position { line: line as u32, character }
}

/// The number of UTF-16 code units between two characters.
pub fn width16(chars: &Chars, lo: usize, hi: usize) -> (r: u32)
    requires
        chars.wf(),
        lo <= hi <= chars.cs.len(),
        byte_off(chars.cs@, chars.cs@.len() as int) <= u32::MAX,
    ensures
        r == utf16_len(chars.cs@, lo as int, hi as int),
{
    let ghost cs = chars.cs@;
    let mut character: u32 = 0;
    let mut i: usize = lo;
    while i < hi
        invariant
            chars.wf(),
            chars.cs@ == cs,
            lo <= i <= hi <= cs.len(),
            character == utf16_len(cs, lo as int, i as int),
            byte_off(cs, cs.len() as int) <= u32::MAX,
        decreases hi - i,
    {
        proof {
            utf16_within_bytes(cs, lo as int, i + 1);
            if i + 1 < cs.len() {
                byte_off_grows(cs, i + 1, cs.len() as int);
            }
        }
        character = character + utf16_width_of(chars.cs[i]);
        i = i + 1;
    }
    character
}

/// The position of byte offset `offset` in `text`, whose lines begin at `starts`.
fn locate(starts: &Vec<usize>, text: &str, offset: usize) -> (r: Position)
    requires
        indexes(starts@, text@),
        on_boundary(text@, offset as int),
        byte_off(text@, text@.len() as int) <= u32::MAX,
    ensures
        r.is(position_of(text@, index_at(text@, offset as int))),
{
    let chars = Chars::of(text);
    let ghost cs = text@;
    let last: usize = chars.off(chars.cs.len());
    let off: usize = if offset > last {
        last
    } else {
        offset
    };
    proof {
        if offset >= last {
            assert(begins_at(cs, off as int, cs.len() as int));
        }
    }
    let k = find_index(&chars, off);
    proof {
        if offset <= last {
            begins_at_unique(cs, off as int, k as int, index_at(cs, offset as int));
        } else {
            begins_at_unique(cs, off as int, k as int, cs.len() as int);
        }
    }
    position_in(starts, &chars, k)
}

/// A source document and a precomputed index of its line boundaries.
pub struct Document {
    pub text: String,
    /// Byte offset at which each 0-based line begins; always starts with `0`.
    pub line_starts: Vec<usize>,
    /// Client-reported version, bumped on every change.
    pub version: i32,
}

impl Document {
    /// The index is that of the text.
    pub open spec fn wf(&self) -> bool {
        indexes(self.line_starts@, self.text@)
    }

    pub fn new(text: String, version: i32) -> (r: Document)
        ensures
            r.wf(),
            r.text@ == text@,
            r.version == version,
    {
        let line_starts = line_starts(text.as_str());
        Document { text, line_starts, version }
    }

    pub fn update(&mut self, text: String, version: i32)
        ensures
            final(self).wf(),
            final(self).text@ == text@,
            final(self).version == version,
    {
        self.line_starts = line_starts(text.as_str());
        self.text = text;
        self.version = version;
    }

    /// Byte offset to position. The column is the number of UTF-16 code units between
    /// the line start and `offset`; an offset past the end stands for the end.
    pub fn position_at(&self, offset: usize) -> (r: Position)
        requires
            self.wf(),
            on_boundary(self.text@, offset as int),
            byte_off(self.text@, self.text@.len() as int) <= u32::MAX,
        ensures
            r.is(position_of(self.text@, index_at(self.text@, offset as int))),
    {
        locate(&self.line_starts, self.text.as_str(), offset)
    }

    /// Position to byte offset. Out-of-range lines and columns clamp to the nearest
    /// valid offset.
    pub fn offset_at(&self, pos: Position) -> (r: usize)
        requires
            self.wf(),
        ensures
            r == byte_off(
                self.text@,
                index_of(self.text@, pos.line as int, pos.character as int),
            ),
    {
        let chars = Chars::of(self.text.as_str());
        let ghost cs = self.text@;
        let line = pos.line as usize;
        let n: usize = chars.cs.len();
        if line >= self.line_starts.len() {
            return chars.off(n);
        }
        proof {
            line_begins_facts(cs, cs.len() as int);
            assert(begins_at(cs, self.line_starts[line as int] as int, lines(cs)[line as int]));
            if line + 1 < lines(cs).len() {
                assert(begins_at(cs, self.line_starts[line + 1] as int, lines(cs)[line + 1]));
            }
        }
        let begin = find_index(&chars, self.line_starts[line]);
        let end: usize = if line < self.line_starts.len() - 1 {
            let e = find_index(&chars, self.line_starts[line + 1]);
            proof {
                begins_at_unique(
                    cs,
                    self.line_starts[line + 1] as int,
                    e as int,
                    lines(cs)[line + 1],
                );
            }
            e
        } else {
            n
        };
        proof {
            begins_at_unique(
                cs,
                self.line_starts[line as int] as int,
                begin as int,
                lines(cs)[line as int],
            );
        }
        let mut remaining: u32 = pos.character;
        let mut i: usize = begin;
        let mut fits: bool = true;
        while i < end && fits
            invariant
                chars.wf(),
                chars.cs@ == cs,
                begin <= i <= end <= cs.len(),
                reach(cs, begin as int, end as int, pos.character as int) == reach(
                    cs,
                    i as int,
                    end as int,
                    remaining as int,
                ),
                !fits ==> reach(cs, i as int, end as int, remaining as int) == i,
            decreases end - i, fits as int,
        {
            let w = utf16_width_of(chars.cs[i]);
            if w > remaining {
                fits = false;
            } else {
                remaining = remaining - w;
                i = i + 1;
            }
        }
        chars.off(i)
    }

    /// The range a span covers.
    pub fn range_of(&self, span: Span) -> (r: Range)
        requires
            self.wf(),
            on_boundary(self.text@, span.lo as int),
            on_boundary(self.text@, span.hi as int),
            byte_off(self.text@, self.text@.len() as int) <= u32::MAX,
        ensures
            r.start.is(position_of(self.text@, index_at(self.text@, span.lo as int))),
            r.end.is(position_of(self.text@, index_at(self.text@, span.hi as int))),
    {
        Range { start: self.position_at(span.lo), end: self.position_at(span.hi) }
    }
}

/// A standalone line index for an arbitrary source text, used to map spans in files
/// other than the active document.
pub struct LineIndex {
    line_starts: Vec<usize>,
}

impl LineIndex {
    /// Whether this is the index of the text `cs`.
    pub closed spec fn of(&self, cs: Seq<char>) -> bool {
        indexes(self.line_starts@, cs)
    }

    pub fn new(text: &str) -> (r: LineIndex)
        ensures
            r.of(text@),
    {
        LineIndex { line_starts: line_starts(text) }
    }

    pub fn position_at(&self, text: &str, offset: usize) -> (r: Position)
        requires
            self.of(text@),
            on_boundary(text@, offset as int),
            byte_off(text@, text@.len() as int) <= u32::MAX,
        ensures
            r.is(position_of(text@, index_at(text@, offset as int))),
    {
        locate(&self.line_starts, text, offset)
    }

    pub fn range_of(&self, text: &str, lo: usize, hi: usize) -> (r: Range)
        requires
            self.of(text@),
            on_boundary(text@, lo as int),
            on_boundary(text@, hi as int),
            byte_off(text@, text@.len() as int) <= u32::MAX,
        ensures
            r.start.is(position_of(text@, index_at(text@, lo as int))),
            r.end.is(position_of(text@, index_at(text@, hi as int))),
    {
        Range { start: self.position_at(text, lo), end: self.position_at(text, hi) }
    }
}

} // verus!
