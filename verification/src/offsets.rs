//! Byte and UTF-16 offsets of the characters of a text.

use vstd::prelude::*;
use crate::text::chars_of;

verus! {

/// The number of bytes a character takes in UTF-8.
pub open spec fn byte_width(c: char) -> nat {
    if c <= '\u{7f}' {
        1
    } else if c <= '\u{7ff}' {
        2
    } else if c <= '\u{ffff}' {
        3
    } else {
        4
    }
}

/// The number of code units a character takes in UTF-16.
pub open spec fn utf16_width(c: char) -> nat {
    if c <= '\u{ffff}' {
        1
    } else {
        2
    }
}

/// The byte offset of the `i`-th character; a position past the end counts one byte
/// each.
pub open spec fn byte_off(cs: Seq<char>, i: int) -> nat
    decreases i,
{
    if i <= 0 {
        0
    } else {
        byte_off(cs, i - 1) + (if i - 1 < cs.len() {
            byte_width(cs[i - 1])
        } else {
            1
        })
    }
}

/// The number of UTF-16 code units in `cs[lo..hi]`.
pub open spec fn utf16_len(cs: Seq<char>, lo: int, hi: int) -> nat
    decreases hi - lo,
{
    if hi <= lo {
        0
    } else {
        utf16_len(cs, lo, hi - 1) + utf16_width(cs[hi - 1])
    }
}

/// Offsets grow with the position.
pub proof fn byte_off_grows(cs: Seq<char>, i: int, j: int)
    requires
        i < j,
        0 < j,
    ensures
        byte_off(cs, i) < byte_off(cs, j),
        0 <= i ==> byte_off(cs, i) + (j - i) <= byte_off(cs, j),
    decreases j,
{
    if i < j - 1 && 0 < j - 1 {
        byte_off_grows(cs, i, j - 1);
    }
}

/// Offsets in a text do not depend on what follows.
pub proof fn byte_off_prefix(cs: Seq<char>, n: int, i: int)
    requires
        0 <= i <= n <= cs.len(),
    ensures
        byte_off(cs.take(n), i) == byte_off(cs, i),
    decreases i,
{
    if i > 0 {
        byte_off_prefix(cs, n, i - 1);
    }
}

/// The offset of a character is the length of the UTF-8 encoding of what stands
/// before it.
pub proof fn byte_off_is_utf8_len(cs: Seq<char>, i: int)
    requires
        0 <= i <= cs.len(),
    ensures
        byte_off(cs, i) == vstd::utf8::encode_utf8(cs.take(i)).len(),
    decreases i,
{
    if i == 0 {
        assert(cs.take(0) =~= Seq::empty());
    } else {
        byte_off_is_utf8_len(cs, i - 1);
        encode_push(cs.take(i - 1), cs[i - 1]);
        assert(cs.take(i) =~= cs.take(i - 1).push(cs[i - 1]));
    }
}

proof fn encode_push(cs: Seq<char>, c: char)
    ensures
        vstd::utf8::encode_utf8(cs.push(c)).len() == vstd::utf8::encode_utf8(cs).len()
            + byte_width(c),
    decreases cs.len(),
{
    reveal_with_fuel(vstd::utf8::encode_utf8, 2);
    if cs.len() == 0 {
        assert(cs.push(c).drop_first() =~= Seq::empty());
    } else {
        assert(cs.push(c).drop_first() =~= cs.drop_first().push(c));
        encode_push(cs.drop_first(), c);
    }
}

/// The number of bytes `c` takes in UTF-8.
pub fn width_of(c: char) -> (r: usize)
    ensures
        r == byte_width(c),
{
    if c <= '\u{7f}' {
        1
    } else if c <= '\u{7ff}' {
        2
    } else if c <= '\u{ffff}' {
        3
    } else {
        4
    }
}

/// The number of code units `c` takes in UTF-16.
pub fn utf16_width_of(c: char) -> (r: u32)
    ensures
        r == utf16_width(c),
{
    if c <= '\u{ffff}' {
        1
    } else {
        2
    }
}

/// A text as its characters with their byte offsets.
pub struct Chars {
    pub cs: Vec<char>,
    pub offs: Vec<usize>,
}

impl Chars {
    /// Every character has its offset, and the end of the text has one too.
    pub open spec fn wf(&self) -> bool {
        self.offs.len() == self.cs.len() + 1 && forall|i: int|
            0 <= i < self.offs.len() ==> #[trigger] self.offs[i] == byte_off(self.cs@, i)
    }

    /// The characters of `src` with their offsets.
    pub fn of(src: &str) -> (r: Chars)
        ensures
            r.wf(),
            r.cs@ == src@,
            byte_off(src@, src@.len() as int) <= usize::MAX,
    {
        let bytes = src.as_bytes().len();
        let cs = chars_of(src);
        proof {
            byte_off_is_utf8_len(src@, src@.len() as int);
            assert(src@.take(src@.len() as int) =~= src@);
        }
        let mut offs: Vec<usize> = Vec::new();
        offs.push(0);
        let mut at: usize = 0;
        for i in 0..cs.len()
            invariant
                cs@ == src@,
                bytes == byte_off(src@, src@.len() as int),
                at == byte_off(src@, i as int),
                offs.len() == i + 1,
                forall|j: int| 0 <= j < offs.len() ==> #[trigger] offs[j] == byte_off(src@, j),
        {
            proof {
                if i + 1 < src@.len() {
                    byte_off_grows(src@, i + 1, src@.len() as int);
                }
            }
            at = at + width_of(cs[i]);
            offs.push(at);
        }
        Chars { cs, offs }
    }

    /// The byte offset of the `i`-th character.
    pub fn off(&self, i: usize) -> (r: usize)
        requires
            self.wf(),
            i <= self.cs.len(),
        ensures
            r == byte_off(self.cs@, i as int),
    {
        self.offs[i]
    }
}

} // verus!
