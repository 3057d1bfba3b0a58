//! How texts are written: a string literal reads back as what was written, and blanks and
//! comments stand for nothing.

use vstd::prelude::*;
use crate::lexer::{at, comment_end, escape, flushed, interpolation_bounds, interpolation_end, newline_added, not_newline, scan, scan_bounds, span_of, string_rest, token_at, trivia};
use crate::token::{StrPartV, TokenKindV, TokenV};

verus! {

// ---- string literals ----

/// How a character is written in a string literal.
pub open spec fn written_char(c: char) -> Seq<char> {
    if c == '\n' {
        seq!['\\', 'n']
    } else if c == '\t' {
        seq!['\\', 't']
    } else if c == '\r' {
        seq!['\\', 'r']
    } else if c == '\0' {
        seq!['\\', '0']
    } else if c == '\\' || c == '"' || c == '{' || c == '}' {
        seq!['\\', c]
    } else {
        seq![c]
    }
}

/// How a text is written in a string literal.
pub open spec fn written_text(s: Seq<char>) -> Seq<char>
    decreases s.len(),
{
    if s.len() == 0 {
        Seq::empty()
    } else {
        written_char(s[0]) + written_text(s.drop_first())
    }
}

/// How a part of a string is written: a text as such, an interpolation in braces.
pub open spec fn written_part(p: StrPartV) -> Seq<char> {
    match p {
        StrPartV::Lit(s) => written_text(s),
        StrPartV::Interp(s) => seq!['{'] + s + seq!['}'],
    }
}

/// How the parts of a string are written.
pub open spec fn written_parts(ps: Seq<StrPartV>) -> Seq<char>
    decreases ps.len(),
{
    if ps.len() == 0 {
        Seq::empty()
    } else {
        written_part(ps[0]) + written_parts(ps.drop_first())
    }
}

/// Whether the braces of a text match from a position on, with that many open.
pub open spec fn closes(s: Seq<char>, i: int, depth: nat) -> bool
    decreases s.len() - i,
{
    if !(0 <= i < s.len()) {
        depth == 1
    } else if s[i] == '{' {
        closes(s, i + 1, depth + 1)
    } else if s[i] == '}' {
        depth > 1 && closes(s, i + 1, (depth - 1) as nat)
    } else {
        s[i] != '"' && closes(s, i + 1, depth)
    }
}

/// Whether parts can be those of a string: no text is empty or follows another, and the
/// braces of each interpolation match.
pub open spec fn are_parts(ps: Seq<StrPartV>) -> bool {
    &&& forall|i: int|
        0 <= i < ps.len() ==> match #[trigger] ps[i] {
            StrPartV::Lit(s) => s.len() > 0,
            StrPartV::Interp(s) => closes(s, 0, 1),
        }
    &&& forall|i: int| 0 <= i < ps.len() - 1 ==> !(#[trigger] ps[i] is Lit && ps[i + 1] is Lit)
}

proof fn text_read(
    cs: Seq<char>,
    start: int,
    i: int,
    parts: Seq<StrPartV>,
    cur: Seq<char>,
    s: Seq<char>,
)
    requires
        0 <= i,
        i + written_text(s).len() <= cs.len(),
        cs.subrange(i, i + written_text(s).len()) == written_text(s),
    ensures
        string_rest(cs, start, i, parts, cur) == string_rest(
            cs,
            start,
            i + written_text(s).len(),
            parts,
            cur + s,
        ),
    decreases s.len(),
{
    let w = written_text(s);
    if s.len() == 0 {
        assert(cur + s =~= cur);
    } else {
        let c = s[0];
        let one = written_char(c);
        let rest = s.drop_first();
        let more = written_text(rest);
        assert(w == one + more);
        let whole = cs.subrange(i, i + w.len());
        assert(whole[0] == one[0] && whole[0] == cs[i]);
        let k = i + one.len();
        assert(cs.subrange(k, k + more.len()) =~= more) by {
            assert forall|x: int| 0 <= x < more.len() implies cs.subrange(k, k + more.len())[x]
                == more[x] by {
                assert(whole[one.len() + x] == more[x]);
                assert(whole[one.len() + x] == cs[k + x]);
            }
        }
        if one.len() == 2 {
            assert(whole[1] == one[1] && whole[1] == cs[i + 1]);
            assert(at(cs, i + 1) == Some(one[1]));
            assert(escape(one[1]) == Some(c));
        }
        assert(string_rest(cs, start, i, parts, cur) == string_rest(
            cs,
            start,
            k,
            parts,
            cur.push(c),
        ));
        text_read(cs, start, k, parts, cur.push(c), rest);
        assert(cur.push(c) + rest =~= cur + s);
    }
}

proof fn code_read(cs: Seq<char>, start: int, from: int, s: Seq<char>, x: int, depth: nat)
    requires
        0 <= from,
        0 <= x <= s.len(),
        from + s.len() < cs.len(),
        cs.subrange(from, from + s.len()) == s,
        cs[from + s.len()] == '}',
        closes(s, x, depth),
        depth >= 1,
    ensures
        interpolation_end(cs, start, from + x, depth) == Ok::<int, crate::lexer::LexErrorV>(
            from + s.len(),
        ),
    decreases s.len() - x,
{
    if x < s.len() {
        assert(cs.subrange(from, from + s.len())[x] == cs[from + x]);
        if s[x] == '{' {
            code_read(cs, start, from, s, x + 1, depth + 1);
        } else if s[x] == '}' {
            code_read(cs, start, from, s, x + 1, (depth - 1) as nat);
        } else {
            code_read(cs, start, from, s, x + 1, depth);
        }
    }
}

proof fn parts_read(
    cs: Seq<char>,
    start: int,
    i: int,
    done: Seq<StrPartV>,
    cur: Seq<char>,
    ps: Seq<StrPartV>,
)
    requires
        0 <= i,
        i + written_parts(ps).len() < cs.len(),
        cs.subrange(i, i + written_parts(ps).len()) == written_parts(ps),
        cs[i + written_parts(ps).len()] == '"',
        are_parts(ps),
        cur.len() > 0 && ps.len() > 0 ==> !(ps[0] is Lit),
        done.len() > 0 || cur.len() > 0 || ps.len() > 0,
    ensures
        string_rest(cs, start, i, done, cur) == Ok::<
            (Seq<StrPartV>, int),
            crate::lexer::LexErrorV,
        >((flushed(done, cur) + ps, i + written_parts(ps).len() + 1)),
    decreases ps.len(),
{
    let w = written_parts(ps);
    if ps.len() == 0 {
        assert(flushed(done, cur) + ps =~= flushed(done, cur));
    } else {
        let p = ps[0];
        let rest = ps.drop_first();
        let one = written_part(p);
        let more = written_parts(rest);
        let whole = cs.subrange(i, i + w.len());
        assert(w == one + more);
        let k = i + one.len();
        assert(cs.subrange(k, k + more.len()) =~= more) by {
            assert forall|x: int| 0 <= x < more.len() implies cs.subrange(k, k + more.len())[x]
                == more[x] by {
                assert(whole[one.len() + x] == more[x]);
                assert(whole[one.len() + x] == cs[k + x]);
            }
        }
        assert(cs.subrange(i, k) =~= one) by {
            assert forall|x: int| 0 <= x < one.len() implies cs.subrange(i, k)[x] == one[x] by {
                assert(whole[x] == one[x]);
                assert(whole[x] == cs[i + x]);
            }
        }
        assert(are_parts(rest)) by {
            assert forall|x: int| 0 <= x < rest.len() implies match #[trigger] rest[x] {
                StrPartV::Lit(s) => s.len() > 0,
                StrPartV::Interp(s) => closes(s, 0, 1),
            } by {
                assert(rest[x] == ps[x + 1]);
            }
            assert forall|x: int| 0 <= x < rest.len() - 1 implies !(#[trigger] rest[x] is Lit
                && rest[x + 1] is Lit) by {
                assert(rest[x] == ps[x + 1] && rest[x + 1] == ps[x + 2]);
                assert(!(ps[x + 1] is Lit && ps[x + 1 + 1] is Lit));
            }
        }
        match p {
            StrPartV::Lit(s) => {
                text_read(cs, start, i, done, cur, s);
                assert(cur + s =~= s);
                if rest.len() > 0 {
                    assert(rest[0] == ps[1]);
                    let zero: int = 0;
                    assert(!(ps[zero] is Lit && ps[zero + 1] is Lit));
                }
                parts_read(cs, start, k, done, s, rest);
                assert(flushed(done, s) + rest =~= flushed(done, cur) + ps);
            },
            StrPartV::Interp(s) => {
                let here = cs.subrange(i, k);
                assert(here[0] == '{' && here[0] == cs[i]);
                assert(here[here.len() - 1] == '}' && here[here.len() - 1] == cs[k - 1]);
                assert(cs.subrange(i + 1, k - 1) =~= s) by {
                    assert forall|x: int| 0 <= x < s.len() implies cs.subrange(i + 1, k - 1)[x]
                        == s[x] by {
                        assert(here[1 + x] == s[x]);
                        assert(here[1 + x] == cs[i + 1 + x]);
                    }
                }
                interpolation_bounds(cs, start, i + 1, 1);
                code_read(cs, start, i + 1, s, 0, 1);
                let next = flushed(done, cur).push(StrPartV::Interp(s));
                parts_read(cs, start, k, next, Seq::empty(), rest);
                assert(flushed(next, Seq::empty()) + rest =~= flushed(done, cur) + ps);
            },
        }
    }
}

/// A string literal stands for what was written: each text with its escapes undone, and each
/// interpolation with the code in its braces, in order.
pub proof fn string_literals_read_back(cs: Seq<char>, i: int, ps: Seq<StrPartV>)
    requires
        are_parts(ps),
        0 <= i,
        i + written_parts(ps).len() + 2 <= cs.len(),
        cs.subrange(i, i + written_parts(ps).len() + 2) == seq!['"'] + written_parts(ps) + seq![
            '"',
        ],
    ensures
        token_at(cs, i) == Ok::<(TokenKindV, int), crate::lexer::LexErrorV>(
            (
                TokenKindV::Str(
                    if ps.len() == 0 {
                        seq![StrPartV::Lit(Seq::empty())]
                    } else {
                        ps
                    },
                ),
                i + written_parts(ps).len() + 2,
            ),
        ),
{
    let w = written_parts(ps);
    let whole = cs.subrange(i, i + w.len() + 2);
    assert(whole[0] == '"' && whole[0] == cs[i]);
    let last = w.len() as int + 1;
    assert(whole[last] == '"' && whole[last] == cs[i + last]);
    assert(cs.subrange(i + 1, i + 1 + w.len()) =~= w) by {
        assert forall|x: int| 0 <= x < w.len() implies cs.subrange(i + 1, i + 1 + w.len())[x]
            == w[x] by {
            assert(whole[1 + x] == w[x]);
            assert(whole[1 + x] == cs[i + 1 + x]);
        }
    }
    let none = Seq::<StrPartV>::empty();
    if ps.len() > 0 {
        parts_read(cs, i, i + 1, none, Seq::empty(), ps);
        assert(flushed(none, Seq::<char>::empty()) + ps =~= ps);
    } else {
        assert(none.push(StrPartV::Lit(Seq::empty())) =~= seq![StrPartV::Lit(Seq::empty())]);
    }
}

/// A character behind a backslash that is no escape is an error, and so is a literal that
/// does not end.
pub proof fn broken_strings_are_refused(cs: Seq<char>, i: int, s: Seq<char>)
    requires
        0 <= i,
        i + 1 + written_text(s).len() <= cs.len(),
        cs[i] == '"',
        cs.subrange(i + 1, i + 1 + written_text(s).len()) == written_text(s),
    ensures
        i + 1 + written_text(s).len() == cs.len() ==> token_at(cs, i) is Err,
        ({
            let k = i + 1 + written_text(s).len();
            k < cs.len() && cs[k] == '\\' && (k + 1 == cs.len() || !(cs[k + 1] == 'n' || cs[k + 1]
                == 't' || cs[k + 1] == 'r' || cs[k + 1] == '0' || cs[k + 1] == '\\' || cs[k + 1]
                == '"' || cs[k + 1] == '{' || cs[k + 1] == '}'))
        }) ==> token_at(cs, i) is Err,
{
    text_read(cs, i, i + 1, Seq::empty(), Seq::empty(), s);
}

// ---- blanks and comments ----

/// Blanks in a line stand for nothing.
pub proof fn blanks_are_skipped(cs: Seq<char>, i: int, j: int, toks: Seq<TokenV>)
    requires
        0 <= i <= j <= cs.len(),
        forall|k: int| i <= k < j ==> (#[trigger] cs[k] == ' ' || cs[k] == '\t' || cs[k] == '\r'),
    ensures
        trivia(cs, i, toks) == trivia(cs, j, toks),
    decreases j - i,
{
    if i < j {
        assert(cs[i] == ' ' || cs[i] == '\t' || cs[i] == '\r');
        blanks_are_skipped(cs, i + 1, j, toks);
    }
}

proof fn breaks_run(cs: Seq<char>, i: int, j: int, toks: Seq<TokenV>)
    requires
        0 <= i <= j <= cs.len(),
        forall|k: int|
            i <= k < j ==> (#[trigger] cs[k] == ' ' || cs[k] == '\t' || cs[k] == '\r' || cs[k]
                == '\n'),
        toks.len() == 0 || toks.last().kind is Newline,
    ensures
        trivia(cs, i, toks) == trivia(cs, j, toks),
    decreases j - i,
{
    if i < j {
        assert(cs[i] == ' ' || cs[i] == '\t' || cs[i] == '\r' || cs[i] == '\n');
        breaks_run(cs, i + 1, j, toks);
    }
}

/// Line breaks, with the blanks between them, stand for one line break at the first; for none
/// where there was nothing before or a line break.
pub proof fn line_breaks_are_one(cs: Seq<char>, i: int, j: int, toks: Seq<TokenV>)
    requires
        0 <= i < j <= cs.len(),
        cs[i] == '\n',
        forall|k: int|
            i < k < j ==> (#[trigger] cs[k] == ' ' || cs[k] == '\t' || cs[k] == '\r' || cs[k]
                == '\n'),
    ensures
        trivia(cs, i, toks) == trivia(
            cs,
            j,
            if toks.len() > 0 && !(toks.last().kind is Newline) {
                toks.push(TokenV { kind: TokenKindV::Newline, span: span_of(cs, i, i + 1) })
            } else {
                toks
            },
        ),
{
    breaks_run(cs, i + 1, j, newline_added(toks, cs, i));
}

/// What is behind `//` up to the end of the line stands for nothing.
pub proof fn line_comments_are_skipped(cs: Seq<char>, i: int, j: int, toks: Seq<TokenV>)
    requires
        0 <= i,
        i + 2 <= j <= cs.len(),
        cs[i] == '/' && cs[i + 1] == '/',
        forall|k: int| i <= k < j ==> #[trigger] cs[k] != '\n',
        j < cs.len() ==> cs[j] == '\n',
    ensures
        trivia(cs, i, toks) == trivia(cs, j, toks),
{
    scan_bounds(cs, i, not_newline());
    line_end(cs, i, j);
}

proof fn line_end(cs: Seq<char>, i: int, j: int)
    requires
        0 <= i <= j <= cs.len(),
        forall|k: int| i <= k < j ==> #[trigger] cs[k] != '\n',
        j < cs.len() ==> cs[j] == '\n',
    ensures
        scan(cs, i, not_newline()) == j,
    decreases j - i,
{
    if i < j {
        assert(not_newline()(cs[i]));
        line_end(cs, i + 1, j);
    } else if i < cs.len() {
        assert(!not_newline()(cs[i]));
    }
}

/// A block comment stands for nothing, from `/*` to the `*/` that goes with it: here, where
/// neither mark stands between.
pub proof fn block_comments_are_skipped(cs: Seq<char>, i: int, j: int, toks: Seq<TokenV>)
    requires
        0 <= i,
        i + 2 <= j,
        j + 2 <= cs.len(),
        cs[i] == '/' && cs[i + 1] == '*',
        cs[j] == '*' && cs[j + 1] == '/',
        forall|k: int| i + 2 <= k < j ==> #[trigger] cs[k] != '*' && cs[k] != '/',
    ensures
        trivia(cs, i, toks) == trivia(cs, j + 2, toks),
{
    comment_runs(cs, i + 2, j, 1);
    crate::lexer::comment_end_bounds(cs, i + 2, 1);
    assert(comment_end(cs, j, 1) == comment_end(cs, j + 2, 0));
}

proof fn comment_runs(cs: Seq<char>, i: int, j: int, depth: nat)
    requires
        0 <= i <= j <= cs.len(),
        depth > 0,
        forall|k: int| i <= k < j ==> #[trigger] cs[k] != '*' && cs[k] != '/',
    ensures
        comment_end(cs, i, depth) == comment_end(cs, j, depth),
    decreases j - i,
{
    if i < j {
        comment_runs(cs, i + 1, j, depth);
    }
}

/// A comment inside a comment belongs to it: the outer one goes on behind it.
pub proof fn nested_comments_are_skipped(cs: Seq<char>, i: int, j: int, depth: nat)
    requires
        0 <= i,
        i + 2 <= j,
        j + 2 <= cs.len(),
        depth > 0,
        cs[i] == '/' && cs[i + 1] == '*',
        cs[j] == '*' && cs[j + 1] == '/',
        forall|k: int| i + 2 <= k < j ==> #[trigger] cs[k] != '*' && cs[k] != '/',
    ensures
        comment_end(cs, i, depth) == comment_end(cs, j + 2, depth),
{
    comment_runs(cs, i + 2, j, depth + 1);
    assert(comment_end(cs, i, depth) == comment_end(cs, i + 2, depth + 1));
    assert(comment_end(cs, j, depth + 1) == comment_end(cs, j + 2, depth));
}

} // verus!
