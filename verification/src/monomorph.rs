//! Symbol mangling: the names of compiled functions, methods, module inits,
//! closures and of their instances for concrete argument types.

use vstd::prelude::*;
use crate::lexer::is_digit;
use crate::text::{cat2, cat3, chars_of, dec, dec_signed, dec_signed_string, dec_string, digit_char, digits, has_prefix, hex, hex_string, join, join_strings, starts_with, string_of, texts};
use crate::types::{nominal_view, types_view, vars, vars_all, vars_subst, FloatKind, IntKind, NominalV, Substitution, Type, TypeV};

verus! {

/// The mark of compiler-synthesized instances (module inits, methods, statics,
/// closures). No source identifier can contain it.
pub const SYNTH_SIGIL: &'static str = "%";

// ---- sanitizing ----

/// Whether `c` may stand in a symbol as it is: an ASCII letter or digit.
pub open spec fn plain(c: char) -> bool {
    ('a' <= c && c <= 'z') || ('A' <= c && c <= 'Z') || ('0' <= c && c <= '9')
}

fn is_plain(c: char) -> (r: bool)
    ensures
        r == plain(c),
{
    ('a' <= c && c <= 'z') || ('A' <= c && c <= 'Z') || ('0' <= c && c <= '9')
}

/// How one character stands in a symbol: itself, or its code point in hexadecimal
/// between underscores.
pub open spec fn escaped(c: char) -> Seq<char> {
    if plain(c) {
        seq![c]
    } else {
        seq!['_'] + hex(c as u32 as nat) + seq!['_']
    }
}

/// How a text stands in a symbol.
pub open spec fn sanitized(s: Seq<char>) -> Seq<char>
    decreases s.len(),
{
    if s.len() == 0 {
        Seq::empty()
    } else {
        sanitized(s.drop_last()) + escaped(s.last())
    }
}

/// Encode a text so that it can stand in a symbol, and distinct texts stay distinct.
pub fn sanitize(s: &str) -> (r: String)
    ensures
        r@ == sanitized(s@),
{
    let cs = chars_of(s);
    let mut out = String::new();
    let ghost all = s@;
    assert(out@ =~= sanitized(all.take(0)));
    for i in 0..cs.len()
        invariant
            all == s@,
            cs@ == all,
            out@ == sanitized(all.take(i as int)),
    {
        proof {
            assert(all.take(i + 1).drop_last() =~= all.take(i as int));
            assert(all.take(i + 1).last() == all[i as int]);
        }
        let ghost before = out@;
        let c = cs[i];
        if is_plain(c) {
            out.push(c);
            assert(out@ =~= before + escaped(c));
        } else {
            out.push('_');
            let code = hex_string(c as u32 as u64);
            out.push_str(code.as_str());
            out.push('_');
            assert(out@ =~= before + escaped(c));
        }
    }
    assert(all.take(cs.len() as int) =~= all);
    out
}

proof fn digit_chars(d: nat, e: nat)
    requires
        d < 16,
        e < 16,
    ensures
        digit_char(d) == digit_char(e) ==> d == e,
        digit_char(d) != '_',
        plain(digit_char(d)),
{
}

proof fn hex_has_no_underscore(n: nat, i: int)
    requires
        0 <= i < hex(n).len(),
    ensures
        hex(n)[i] != '_',
        plain(hex(n)[i]),
    decreases n,
{
    if n < 16 {
        digit_chars(n, 0);
    } else {
        digit_chars(n % 16, 0);
        if i < hex(n).len() - 1 {
            hex_has_no_underscore(n / 16, i);
        }
    }
}

/// The digits of a number in a base determine it.
pub proof fn digits_determine(m: nat, n: nat, base: nat)
    requires
        2 <= base <= 16,
        digits(m, base) == digits(n, base),
    ensures
        m == n,
    decreases m,
{
    let a = digits(m, base);
    let b = digits(n, base);
    if m < base {
        if n >= base {
            assert(digits(n / base, base).len() >= 1) by {
                digits_not_empty(n / base, base);
            }
            assert(a == seq![digit_char(m)]);
            assert(b == digits(n / base, base).push(digit_char(n % base)));
            assert(b.len() >= 2);
            assert(false);
        } else {
            assert(a == seq![digit_char(m)]);
            assert(b == seq![digit_char(n)]);
            digit_chars(m, n);
            assert(a[0] == digit_char(m) && b[0] == digit_char(n));
        }
    } else if n < base {
        digits_not_empty(m / base, base);
        assert(b == seq![digit_char(n)]);
        assert(a == digits(m / base, base).push(digit_char(m % base)));
        assert(a.len() >= 2);
        assert(false);
    } else {
        let qm = m / base;
        let qn = n / base;
        let rm = m % base;
        let rn = n % base;
        assert(a == digits(qm, base).push(digit_char(rm)));
        assert(b == digits(qn, base).push(digit_char(rn)));
        assert(a.drop_last() =~= digits(qm, base));
        assert(b.drop_last() =~= digits(qn, base));
        assert(qm < m && rm < base && m == qm * base + rm) by (nonlinear_arith)
            requires
                m >= base,
                2 <= base,
                qm == m / base,
                rm == m % base,
        ;
        assert(rn < base && n == qn * base + rn) by (nonlinear_arith)
            requires
                2 <= base,
                qn == n / base,
                rn == n % base,
        ;
        digits_determine(qm, qn, base);
        digit_chars(rm, rn);
        assert(a.last() == digit_char(rm) && b.last() == digit_char(rn));
        assert(rm == rn);
    }
}

proof fn digits_not_empty(n: nat, base: nat)
    ensures
        digits(n, base).len() >= 1,
{
}

/// A hexadecimal number between underscores at the end of a text can be read back.
proof fn framed_hex_unique(pa: Seq<char>, x: nat, pb: Seq<char>, y: nat)
    requires
        pa + (seq!['_'] + hex(x) + seq!['_']) == pb + (seq!['_'] + hex(y) + seq!['_']),
    ensures
        pa == pb,
        x == y,
{
    let hx = hex(x);
    let hy = hex(y);
    let sa = pa + (seq!['_'] + hx + seq!['_']);
    let sb = pb + (seq!['_'] + hy + seq!['_']);
    let n = sa.len();
    if hx.len() < hy.len() {
        let k = n - 2 - hx.len();
        assert(sa[k] == '_');
        assert(sb[k] == hy[hy.len() - hx.len() - 1]);
        hex_has_no_underscore(y, hy.len() - hx.len() - 1);
    } else if hy.len() < hx.len() {
        let k = n - 2 - hy.len();
        assert(sb[k] == '_');
        assert(sa[k] == hx[hx.len() - hy.len() - 1]);
        hex_has_no_underscore(x, hx.len() - hy.len() - 1);
    } else {
        assert forall|i: int| 0 <= i < hx.len() implies hx[i] == hy[i] by {
            assert(sa[pa.len() + 1 + i] == hx[i]);
            assert(sb[pb.len() + 1 + i] == hy[i]);
        }
        assert(hx =~= hy);
        digits_determine(x, y, 16);
        assert(pa =~= sa.take(pa.len() as int));
        assert(pb =~= sb.take(pb.len() as int));
    }
}

proof fn code_points(x: char, y: char)
    requires
        x as u32 == y as u32,
    ensures
        x == y,
{
}

/// Distinct texts stay distinct when sanitized.
pub proof fn sanitized_injective(a: Seq<char>, b: Seq<char>)
    requires
        sanitized(a) == sanitized(b),
    ensures
        a == b,
    decreases a.len(),
{
    let sa = sanitized(a);
    let sb = sanitized(b);
    if a.len() == 0 {
        if b.len() > 0 {
            digits_not_empty(b.last() as u32 as nat, 16);
            assert(sb.len() > 0);
        }
        assert(a =~= b);
    } else if b.len() == 0 {
        digits_not_empty(a.last() as u32 as nat, 16);
        assert(sa.len() > 0);
    } else {
        let x = a.last();
        let y = b.last();
        let pa = sanitized(a.drop_last());
        let pb = sanitized(b.drop_last());
        let n = sa.len();
        if plain(x) {
            assert(sa[n - 1] == x);
            if plain(y) {
                assert(sb[n - 1] == y);
                assert(pa =~= sa.take(n - 1));
                assert(pb =~= sb.take(n - 1));
                sanitized_injective(a.drop_last(), b.drop_last());
            } else {
                assert(sb[n - 1] == '_');
            }
        } else {
            assert(sa[n - 1] == '_');
            if plain(y) {
                assert(sb[n - 1] == y);
            } else {
                framed_hex_unique(pa, x as u32 as nat, pb, y as u32 as nat);
                code_points(x, y);
                sanitized_injective(a.drop_last(), b.drop_last());
            }
        }
        assert(a =~= a.drop_last().push(x));
        assert(b =~= b.drop_last().push(y));
    }
}

// ---- function symbols ----

/// The symbol of a function.
pub open spec fn fn_symbol(name: Seq<char>) -> Seq<char> {
    if has_prefix(name, SYNTH_SIGIL@) {
        "pp_synth_"@ + sanitized(name.skip(SYNTH_SIGIL@.len() as int))
    } else {
        "pp_fn_"@ + sanitized(name)
    }
}

/// The symbol of a function. Synthesized instances get a prefix of their own, so
/// that they never meet a function of the source.
pub fn mangle_fn(name: &str) -> (r: String)
    ensures
        r@ == fn_symbol(name@),
{
    proof {
        reveal_strlit("%");
    }
    if starts_with(name, SYNTH_SIGIL) {
        let cs = chars_of(name);
        let rest = string_of(cs.as_slice(), 1, cs.len());
        assert(rest@ =~= name@.skip(1));
        let tail = sanitize(rest.as_str());
        cat2("pp_synth_", tail.as_str())
    } else {
        let tail = sanitize(name);
        cat2("pp_fn_", tail.as_str())
    }
}

/// Distinct function names get distinct symbols.
pub proof fn fn_symbol_injective(a: Seq<char>, b: Seq<char>)
    requires
        fn_symbol(a) == fn_symbol(b),
    ensures
        a == b,
{
    reveal_strlit("%");
    reveal_strlit("pp_synth_");
    reveal_strlit("pp_fn_");
    let sa = has_prefix(a, SYNTH_SIGIL@);
    let sb = has_prefix(b, SYNTH_SIGIL@);
    let fa = fn_symbol(a);
    let fb = fn_symbol(b);
    if sa && sb {
        let n = "pp_synth_"@.len() as int;
        assert(fa.skip(n) =~= sanitized(a.skip(1)));
        assert(fb.skip(n) =~= sanitized(b.skip(1)));
        sanitized_injective(a.skip(1), b.skip(1));
        assert(a =~= seq!['%'] + a.skip(1)) by {
            assert(a[0] == SYNTH_SIGIL@[0]);
        }
        assert(b =~= seq!['%'] + b.skip(1)) by {
            assert(b[0] == SYNTH_SIGIL@[0]);
        }
    } else if !sa && !sb {
        let n = "pp_fn_"@.len() as int;
        assert(fa.skip(n) =~= sanitized(a));
        assert(fb.skip(n) =~= sanitized(b));
        sanitized_injective(a, b);
    } else {
        assert(fa[3] == 's' || fa[3] == 'f');
        assert(fa[3] != fb[3]);
    }
}

/// The symbol of a method.
pub open spec fn method_symbol(qualifier: Seq<char>, method: Seq<char>) -> Seq<char> {
    "pp_m_"@ + sanitized(qualifier) + "_"@ + sanitized(method)
}

/// The symbol of a method; `qualifier` is a type name or `Type.Variant`.
pub fn mangle_method(qualifier: &str, method: &str) -> (r: String)
    ensures
        r@ == method_symbol(qualifier@, method@),
{
    let q = sanitize(qualifier);
    let m = sanitize(method);
    let head = cat2("pp_m_", q.as_str());
    let r = cat3(head.as_str(), "_", m.as_str());
    assert(r@ =~= method_symbol(qualifier@, method@));
    r
}

/// The symbol of a module initializer.
pub fn mangle_init(idx: usize) -> (r: String)
    ensures
        r@ == "pp_init_"@ + dec(idx as nat),
{
    let n = dec_string(idx as u64);
    cat2("pp_init_", n.as_str())
}

/// The symbol of a closure.
pub fn mangle_closure(idx: usize) -> (r: String)
    ensures
        r@ == "pp_clo_"@ + dec(idx as nat),
{
    let n = dec_string(idx as u64);
    cat2("pp_clo_", n.as_str())
}

/// The symbol of a module-level global: other characters become underscores.
pub open spec fn global_symbol(n: Seq<char>) -> Seq<char> {
    "pp_g_"@ + Seq::new(
        n.len(),
        |i: int|
            if plain(n[i]) || n[i] == '_' {
                n[i]
            } else {
                '_'
            },
    )
}

/// The symbol of a module-level global.
pub fn mangle_global(n: &str) -> (r: String)
    ensures
        r@ == global_symbol(n@),
{
    let cs = chars_of(n);
    let mut out = cat2("pp_g_", "");
    let ghost want = global_symbol(n@);
    let ghost p = "pp_g_"@.len() as int;
    proof {
        reveal_strlit("");
        assert(out@ =~= want.take(p));
    }
    for i in 0..cs.len()
        invariant
            cs@ == n@,
            want == global_symbol(n@),
            p == "pp_g_"@.len(),
            out@ == want.take(p + i),
    {
        let c = cs[i];
        if is_plain(c) || c == '_' {
            out.push(c);
        } else {
            out.push('_');
        }
        assert(out@ =~= want.take(p + i + 1));
    }
    assert(want.take(p + cs.len()) =~= want);
    out
}

// ---- types in symbols ----

/// The code of an integer type.
pub open spec fn int_code_text(k: IntKind) -> Seq<char> {
    match k {
        IntKind::I8 => "i8"@,
        IntKind::I16 => "i16"@,
        IntKind::I32 => "i32"@,
        IntKind::I64 => "i64"@,
        IntKind::U8 => "u8"@,
        IntKind::U16 => "u16"@,
        IntKind::U32 => "u32"@,
        IntKind::U64 => "u64"@,
    }
}

fn int_code(k: IntKind) -> (r: &'static str)
    ensures
        r@ == int_code_text(k),
{
    match k {
        IntKind::I8 => "i8",
        IntKind::I16 => "i16",
        IntKind::I32 => "i32",
        IntKind::I64 => "i64",
        IntKind::U8 => "u8",
        IntKind::U16 => "u16",
        IntKind::U32 => "u32",
        IntKind::U64 => "u64",
    }
}

/// The code of a type in a symbol. Nominal types go by id, so that types of one name
/// in two modules differ, and by what their type variables stand for, if anything;
/// `const`, `mut` and `ref` leave no trace.
pub open spec fn type_code(t: TypeV) -> Seq<char>
    decreases t,
{
    match t {
        TypeV::Bool => "b"@,
        TypeV::Int(k) => int_code_text(k),
        TypeV::Float(FloatKind::F32) => "f32"@,
        TypeV::Float(FloatKind::F64) => "f64"@,
        TypeV::Str => "str"@,
        TypeV::Void => "void"@,
        TypeV::Never => "never"@,
        TypeV::Record(n) => "r"@ + dec_signed(n.id as int) + entries_code(entry_codes(n.subst)),
        TypeV::Sum(n) => "s"@ + dec_signed(n.id as int) + entries_code(entry_codes(n.subst)),
        TypeV::Array(inner, len) => "a"@ + dec(len as nat) + "_"@ + type_code(*inner),
        TypeV::Slice(inner) => "sl_"@ + type_code(*inner),
        TypeV::Tuple(ts) => "tup"@ + dec(ts.len()) + "_"@ + join(type_codes(ts), "_"@),
        TypeV::Fun(ps, r) => "fn"@ + dec(ps.len()) + "_"@ + join(type_codes(ps), "_"@) + "_"@
            + type_code(*r),
        TypeV::Nullable(inner) => "opt_"@ + type_code(*inner),
        TypeV::ConstOf(inner) => type_code(*inner),
        TypeV::Mut(inner) => type_code(*inner),
        TypeV::Ref(inner) => type_code(*inner),
        TypeV::Unknown(id) => "u"@ + dec(id as nat),
        TypeV::SelfType => "self"@,
    }
}

/// The codes of types.
pub open spec fn type_codes(ts: Seq<TypeV>) -> Seq<Seq<char>>
    decreases ts,
{
    Seq::new(ts.len(), |i: int| if 0 <= i < ts.len() { type_code(ts[i]) } else { arbitrary() })
}

/// The code of an entry of a substitution: its key behind the key's length, then its type.
pub open spec fn entry_code(e: (Seq<char>, TypeV)) -> Seq<char>
    decreases e,
{
    dec(e.0.len()) + "_"@ + e.0 + "_"@ + type_code(e.1)
}

/// The codes of the entries of a substitution.
pub open spec fn entry_codes(es: Seq<(Seq<char>, TypeV)>) -> Seq<Seq<char>>
    decreases es,
{
    Seq::new(es.len(), |i: int| if 0 <= i < es.len() { entry_code(es[i]) } else { arbitrary() })
}

/// What the entries of a substitution add to the code of a nominal type: nothing when
/// there are none.
pub open spec fn entries_code(codes: Seq<Seq<char>>) -> Seq<char> {
    if codes.len() == 0 {
        Seq::empty()
    } else {
        "g"@ + dec(codes.len()) + "_"@ + join(codes, "_"@)
    }
}

/// The code of a type in a symbol.
pub fn type_mangle(ty: &Type) -> (r: String)
    ensures
        r@ == type_code(ty@),
    decreases *ty,
{
    match ty {
        Type::Bool => "b".to_owned(),
        Type::Int(k) => int_code(*k).to_owned(),
        Type::Float(k) => match k {
            FloatKind::F32 => "f32".to_owned(),
            FloatKind::F64 => "f64".to_owned(),
        },
        Type::Str => "str".to_owned(),
        Type::Void => "void".to_owned(),
        Type::Never => "never".to_owned(),
        Type::Record(n) => {
            let id = dec_signed_string(n.id);
            let tail = mangle_entries(&n.substitution);
            assert(ty@ == TypeV::Record(nominal_view(*n)));
            cat3("r", id.as_str(), tail.as_str())
        },
        Type::Sum(n) => {
            let id = dec_signed_string(n.id);
            let tail = mangle_entries(&n.substitution);
            assert(ty@ == TypeV::Sum(nominal_view(*n)));
            cat3("s", id.as_str(), tail.as_str())
        },
        Type::Array(inner, len) => {
            let n = dec_string(*len as u64);
            let t = type_mangle(inner);
            let head = cat2("a", n.as_str());
            let r = cat3(head.as_str(), "_", t.as_str());
            assert(r@ =~= type_code(ty@));
            r
        },
        Type::Slice(inner) => {
            let t = type_mangle(inner);
            cat2("sl_", t.as_str())
        },
        Type::Tuple(ts) => {
            let n = dec_string(ts.len() as u64);
            let es = mangle_all(ts);
            let body = join_strings(es.as_slice(), "_");
            let head = cat2("tup", n.as_str());
            let r = cat3(head.as_str(), "_", body.as_str());
            assert(types_view(ts@).len() == ts.len());
            assert(r@ =~= type_code(ty@));
            r
        },
        Type::Fun(ps, ret) => {
            let es = mangle_all(ps);
            let body = join_strings(es.as_slice(), "_");
            let t = type_mangle(ret);
            let n = dec_string(ps.len() as u64);
            let head = cat3("fn", n.as_str(), "_");
            let front = cat2(head.as_str(), body.as_str());
            let r = cat3(front.as_str(), "_", t.as_str());
            assert(types_view(ps@).len() == ps.len());
            assert(r@ =~= type_code(ty@));
            r
        },
        Type::Nullable(inner) => {
            let t = type_mangle(inner);
            cat2("opt_", t.as_str())
        },
        Type::ConstOf(inner) => type_mangle(inner),
        Type::Mut(inner) => type_mangle(inner),
        Type::Ref(inner) => type_mangle(inner),
        Type::Unknown(id) => {
            let n = dec_string(*id as u64);
            cat2("u", n.as_str())
        },
        Type::SelfType => "self".to_owned(),
    }
}

fn mangle_all(ts: &Vec<Type>) -> (r: Vec<String>)
    ensures
        texts(r@) == type_codes(types_view(ts@)),
    decreases *ts,
{
    let mut out: Vec<String> = Vec::new();
    let ghost want = type_codes(types_view(ts@));
    assert(texts(out@) =~= want.take(0));
    for i in 0..ts.len()
        invariant
            want == type_codes(types_view(ts@)),
            texts(out@) == want.take(i as int),
    {
        let ghost before = texts(out@);
        let t = type_mangle(&ts[i]);
        let ghost tv = t@;
        out.push(t);
        proof {
            assert(types_view(ts@)[i as int] == ts[i as int]@);
            assert(tv == want[i as int]);
            assert(texts(out@) =~= before.push(tv));
            assert(want.take(i + 1) =~= want.take(i as int).push(want[i as int]));
        }
    }
    assert(want.take(ts.len() as int) =~= want);
    out
}

fn mangle_entries(m: &Substitution) -> (r: String)
    ensures
        r@ == entries_code(entry_codes(m@)),
    decreases *m,
{
    let n = m.len();
    if n == 0 {
        return String::new();
    }
    let mut out: Vec<String> = Vec::new();
    let ghost want = entry_codes(m@);
    assert(texts(out@) =~= want.take(0));
    for i in 0..n
        invariant
            n == m@.len(),
            want == entry_codes(m@),
            texts(out@) == want.take(i as int),
    {
        let ghost before = texts(out@);
        let key = m.key_at(i);
        let count = dec_string(chars_of(key).len() as u64);
        let t = type_mangle(m.type_at(i));
        let head = cat3(count.as_str(), "_", key);
        let e = cat3(head.as_str(), "_", t.as_str());
        let ghost ev = e@;
        out.push(e);
        proof {
            assert(ev =~= entry_code(m@[i as int]));
            assert(ev == want[i as int]);
            assert(texts(out@) =~= before.push(ev));
            assert(want.take(i + 1) =~= want.take(i as int).push(want[i as int]));
        }
    }
    assert(want.take(n as int) =~= want);
    let count = dec_string(n as u64);
    let body = join_strings(out.as_slice(), "_");
    let head = cat3("g", count.as_str(), "_");
    cat2(head.as_str(), body.as_str())
}

/// A type without `const`, `mut` and `ref` and without the names of nominal types, which
/// go by id.
pub open spec fn bare(t: TypeV) -> TypeV
    decreases t,
{
    match t {
        TypeV::Record(n) => TypeV::Record(
            NominalV { id: n.id, name: Seq::empty(), subst: bare_entries(n.subst) },
        ),
        TypeV::Sum(n) => TypeV::Sum(
            NominalV { id: n.id, name: Seq::empty(), subst: bare_entries(n.subst) },
        ),
        TypeV::Array(inner, len) => TypeV::Array(Box::new(bare(*inner)), len),
        TypeV::Slice(inner) => TypeV::Slice(Box::new(bare(*inner))),
        TypeV::Tuple(ts) => TypeV::Tuple(bare_types(ts)),
        TypeV::Fun(ps, r) => TypeV::Fun(bare_types(ps), Box::new(bare(*r))),
        TypeV::Nullable(inner) => TypeV::Nullable(Box::new(bare(*inner))),
        TypeV::ConstOf(inner) => bare(*inner),
        TypeV::Mut(inner) => bare(*inner),
        TypeV::Ref(inner) => bare(*inner),
        _ => t,
    }
}

pub open spec fn bare_types(ts: Seq<TypeV>) -> Seq<TypeV>
    decreases ts,
{
    Seq::new(ts.len(), |i: int| if 0 <= i < ts.len() { bare(ts[i]) } else { arbitrary() })
}

pub open spec fn bare_entries(es: Seq<(Seq<char>, TypeV)>) -> Seq<(Seq<char>, TypeV)>
    decreases es,
{
    Seq::new(
        es.len(),
        |i: int|
            if 0 <= i < es.len() {
                (es[i].0, bare(es[i].1))
            } else {
                arbitrary()
            },
    )
}

/// Whether a type holds no inference variable.
spec fn settled(t: TypeV) -> bool
    decreases t,
{
    match t {
        TypeV::Record(n) => entries_settled(n.subst),
        TypeV::Sum(n) => entries_settled(n.subst),
        TypeV::Array(inner, _) => settled(*inner),
        TypeV::Slice(inner) => settled(*inner),
        TypeV::Tuple(ts) => all_settled(ts),
        TypeV::Fun(ps, r) => all_settled(ps) && settled(*r),
        TypeV::Nullable(inner) => settled(*inner),
        TypeV::ConstOf(inner) => settled(*inner),
        TypeV::Mut(inner) => settled(*inner),
        TypeV::Ref(inner) => settled(*inner),
        TypeV::Unknown(_) => false,
        _ => true,
    }
}

spec fn all_settled(ts: Seq<TypeV>) -> bool
    decreases ts,
{
    forall|i: int| 0 <= i < ts.len() ==> settled(#[trigger] ts[i])
}

spec fn entries_settled(es: Seq<(Seq<char>, TypeV)>) -> bool
    decreases es,
{
    forall|i: int| 0 <= i < es.len() ==> settled((#[trigger] es[i]).1)
}

/// Distinct types have distinct codes: two types without inference variables that share a
/// code are the same but for `const`, `mut` and `ref` and the names of nominal types.
pub proof fn distinct_types_have_distinct_codes(a: TypeV, b: TypeV)
    requires
        vars(a) == Set::<u32>::empty(),
        vars(b) == Set::<u32>::empty(),
        type_code(a) == type_code(b),
    ensures
        bare(a) == bare(b),
{
    known_is_settled(a);
    known_is_settled(b);
    let none = Seq::<char>::empty();
    assert(type_code(a) + none =~= type_code(b) + none);
    codes_decode(a, b, none, none);
}

proof fn known_is_settled(t: TypeV)
    requires
        vars(t) == Set::<u32>::empty(),
    ensures
        settled(t),
    decreases t,
{
    match t {
        TypeV::Unknown(id) => {
            assert(vars(t).contains(id));
        },
        TypeV::Record(n) => known_entries_are_settled(n.subst),
        TypeV::Sum(n) => known_entries_are_settled(n.subst),
        TypeV::Array(inner, _) => known_is_settled(*inner),
        TypeV::Slice(inner) => known_is_settled(*inner),
        TypeV::Tuple(ts) => known_are_settled(ts),
        TypeV::Fun(ps, r) => {
            no_parts(vars_all(ps), vars(*r));
            known_are_settled(ps);
            known_is_settled(*r);
        },
        TypeV::Nullable(inner) => known_is_settled(*inner),
        TypeV::ConstOf(inner) => known_is_settled(*inner),
        TypeV::Mut(inner) => known_is_settled(*inner),
        TypeV::Ref(inner) => known_is_settled(*inner),
        _ => {},
    }
}

proof fn no_parts(a: Set<u32>, b: Set<u32>)
    requires
        a.union(b) == Set::<u32>::empty(),
    ensures
        a == Set::<u32>::empty(),
        b == Set::<u32>::empty(),
{
    assert forall|x: u32| !a.contains(x) && !b.contains(x) by {
        assert(!a.union(b).contains(x));
    }
    assert(a =~= Set::<u32>::empty());
    assert(b =~= Set::<u32>::empty());
}

proof fn known_are_settled(ts: Seq<TypeV>)
    requires
        vars_all(ts) == Set::<u32>::empty(),
    ensures
        all_settled(ts),
    decreases ts,
{
    if ts.len() > 0 {
        let front = ts.drop_last();
        no_parts(vars_all(front), vars(ts.last()));
        known_are_settled(front);
        known_is_settled(ts.last());
        assert forall|i: int| 0 <= i < ts.len() implies settled(#[trigger] ts[i]) by {
            if i < front.len() {
                assert(front[i] == ts[i]);
            }
        }
    }
}

proof fn known_entries_are_settled(es: Seq<(Seq<char>, TypeV)>)
    requires
        vars_subst(es) == Set::<u32>::empty(),
    ensures
        entries_settled(es),
    decreases es,
{
    if es.len() > 0 {
        let front = es.drop_last();
        no_parts(vars_subst(front), vars(es.last().1));
        known_entries_are_settled(front);
        known_is_settled(es.last().1);
        assert forall|i: int| 0 <= i < es.len() implies settled((#[trigger] es[i]).1) by {
            if i < front.len() {
                assert(front[i] == es[i]);
            }
        }
    }
}

/// Whether a text can follow the code of a type.
spec fn follows(x: Seq<char>) -> bool {
    x.len() == 0 || x[0] == '_'
}

proof fn dec_is_digits(n: nat, i: int)
    requires
        0 <= i < dec(n).len(),
    ensures
        is_digit(dec(n)[i]),
    decreases n,
{
    if n >= 10 && i < dec(n).len() - 1 {
        dec_is_digits(n / 10, i);
    }
}

/// A number can be read off the front of a text that does not go on with a digit.
proof fn dec_decodes(m: nat, n: nat, x: Seq<char>, y: Seq<char>)
    requires
        dec(m) + x == dec(n) + y,
        x.len() == 0 || !is_digit(x[0]),
        y.len() == 0 || !is_digit(y[0]),
    ensures
        m == n,
        x == y,
{
    let a = dec(m);
    let b = dec(n);
    let s = a + x;
    if a.len() < b.len() {
        dec_is_digits(n, a.len() as int);
        assert((b + y)[a.len() as int] == b[a.len() as int]);
        assert(s.len() > a.len());
        assert(s[a.len() as int] == x[0]);
    } else if b.len() < a.len() {
        dec_is_digits(m, b.len() as int);
        assert(s[b.len() as int] == a[b.len() as int]);
        assert((b + y)[b.len() as int] == y[0]);
    }
    assert(s.take(a.len() as int) =~= a);
    assert((b + y).take(b.len() as int) =~= b);
    assert(s.skip(a.len() as int) =~= x);
    assert((b + y).skip(b.len() as int) =~= y);
    digits_determine(m, n, 10);
}

proof fn dec_signed_decodes(m: int, n: int, x: Seq<char>, y: Seq<char>)
    requires
        dec_signed(m) + x == dec_signed(n) + y,
        x.len() == 0 || !is_digit(x[0]),
        y.len() == 0 || !is_digit(y[0]),
    ensures
        m == n,
        x == y,
{
    let s = dec_signed(m) + x;
    let t = dec_signed(n) + y;
    if m < 0 && n < 0 {
        assert(s.skip(1) =~= dec((-m) as nat) + x);
        assert(t.skip(1) =~= dec((-n) as nat) + y);
        dec_decodes((-m) as nat, (-n) as nat, x, y);
    } else if m >= 0 && n >= 0 {
        dec_decodes(m as nat, n as nat, x, y);
    } else if m < 0 {
        dec_starts_with_digit(n as nat);
        assert(s[0] == '-');
        assert(t[0] == dec(n as nat)[0]);
    } else {
        dec_starts_with_digit(m as nat);
        assert(t[0] == '-');
        assert(s[0] == dec(m as nat)[0]);
    }
}

proof fn same_front(p: Seq<char>, u: Seq<char>, v: Seq<char>)
    requires
        p + u == p + v,
    ensures
        u == v,
{
    assert((p + u).skip(p.len() as int) =~= u);
    assert((p + v).skip(p.len() as int) =~= v);
}

/// The shape of a type, as a number.
spec fn shape(t: TypeV) -> int {
    match t {
        TypeV::Bool => 0,
        TypeV::Int(IntKind::I8) => 1,
        TypeV::Int(IntKind::I16) => 2,
        TypeV::Int(IntKind::I32) => 3,
        TypeV::Int(IntKind::I64) => 4,
        TypeV::Int(IntKind::U8) => 5,
        TypeV::Int(IntKind::U16) => 6,
        TypeV::Int(IntKind::U32) => 7,
        TypeV::Int(IntKind::U64) => 8,
        TypeV::Float(FloatKind::F32) => 9,
        TypeV::Float(FloatKind::F64) => 10,
        TypeV::Str => 11,
        TypeV::Void => 12,
        TypeV::Never => 13,
        TypeV::Record(_) => 14,
        TypeV::Sum(_) => 15,
        TypeV::Array(..) => 16,
        TypeV::Slice(_) => 17,
        TypeV::Tuple(_) => 18,
        TypeV::Fun(..) => 19,
        TypeV::Nullable(_) => 20,
        _ => 21,
    }
}

/// The shape that the front of a code shows.
spec fn shown_shape(s: Seq<char>) -> int {
    if s[0] == 'b' {
        0
    } else if s[0] == 'i' {
        if s[1] == '8' {
            1
        } else if s[1] == '1' {
            2
        } else if s[1] == '3' {
            3
        } else {
            4
        }
    } else if s[0] == 'u' {
        if s[1] == '8' {
            5
        } else if s[1] == '1' {
            6
        } else if s[1] == '3' {
            7
        } else {
            8
        }
    } else if s[0] == 'f' {
        if s[1] == '3' {
            9
        } else if s[1] == '6' {
            10
        } else {
            19
        }
    } else if s[0] == 'v' {
        12
    } else if s[0] == 'n' {
        13
    } else if s[0] == 'r' {
        14
    } else if s[0] == 's' {
        if s[1] == 't' {
            11
        } else if s[1] == 'l' {
            17
        } else if s[1] == 'e' {
            21
        } else {
            15
        }
    } else if s[0] == 'a' {
        16
    } else if s[0] == 't' {
        18
    } else {
        20
    }
}

spec fn has_mode(t: TypeV) -> bool {
    t is ConstOf || t is Mut || t is Ref
}

proof fn codes_show_shapes(t: TypeV, x: Seq<char>)
    requires
        settled(t),
        !has_mode(t),
    ensures
        shown_shape(type_code(t) + x) == shape(t),
{
    let s = type_code(t) + x;
    reveal_strlit("b");
    reveal_strlit("i8");
    reveal_strlit("i16");
    reveal_strlit("i32");
    reveal_strlit("i64");
    reveal_strlit("u8");
    reveal_strlit("u16");
    reveal_strlit("u32");
    reveal_strlit("u64");
    reveal_strlit("f32");
    reveal_strlit("f64");
    reveal_strlit("str");
    reveal_strlit("void");
    reveal_strlit("never");
    reveal_strlit("r");
    reveal_strlit("s");
    reveal_strlit("a");
    reveal_strlit("sl_");
    reveal_strlit("tup");
    reveal_strlit("fn");
    reveal_strlit("opt_");
    reveal_strlit("self");
    match t {
        TypeV::Sum(n) => {
            let id = n.id as int;
            if id < 0 {
                assert(dec_signed(id)[0] == '-');
            } else {
                dec_starts_with_digit(id as nat);
                dec_is_digits(id as nat, 0);
            }
            assert(s[0] == 's');
            assert(s[1] == dec_signed(id)[0]);
        },
        TypeV::Record(n) => {
            assert(s[0] == 'r');
        },
        TypeV::Array(inner, len) => {
            assert(s[0] == 'a');
        },
        TypeV::Tuple(ts) => {
            assert(s[0] == 't');
        },
        TypeV::Fun(ps, r) => {
            assert(s[0] == 'f' && s[1] == 'n');
        },
        _ => {},
    }
}

/// A joined list begins with its first part.
proof fn join_from_front(parts: Seq<Seq<char>>, sep: Seq<char>)
    requires
        parts.len() >= 2,
    ensures
        join(parts, sep) == parts[0] + sep + join(parts.drop_first(), sep),
    decreases parts.len(),
{
    let rest = parts.drop_first();
    let front = parts.drop_last();
    assert(join(parts, sep) == join(front, sep) + sep + parts.last());
    if parts.len() == 2 {
        assert(front[0] == parts[0]);
        assert(rest[0] == parts.last());
    } else {
        join_from_front(front, sep);
        assert(front.drop_first() =~= rest.drop_last());
        assert(rest.last() == parts.last());
        assert(join(rest, sep) == join(rest.drop_last(), sep) + sep + rest.last());
        let m = join(rest.drop_last(), sep);
        assert((parts[0] + sep + m) + sep + parts.last() =~= parts[0] + sep + (m + sep
            + parts.last()));
    }
}

/// The code of a type can be read off the front of a text.
#[verifier::rlimit(60)]
#[verifier::spinoff_prover]
proof fn codes_decode(a: TypeV, b: TypeV, x: Seq<char>, y: Seq<char>)
    requires
        settled(a),
        settled(b),
        follows(x),
        follows(y),
        type_code(a) + x == type_code(b) + y,
    ensures
        bare(a) == bare(b),
        x == y,
    decreases a, b,
{
    if has_mode(a) {
        match a {
            TypeV::ConstOf(i) => codes_decode(*i, b, x, y),
            TypeV::Mut(i) => codes_decode(*i, b, x, y),
            TypeV::Ref(i) => codes_decode(*i, b, x, y),
            _ => {},
        }
    } else if has_mode(b) {
        match b {
            TypeV::ConstOf(i) => codes_decode(a, *i, x, y),
            TypeV::Mut(i) => codes_decode(a, *i, x, y),
            TypeV::Ref(i) => codes_decode(a, *i, x, y),
            _ => {},
        }
    } else {
        codes_show_shapes(a, x);
        codes_show_shapes(b, y);
        assert(shape(a) == shape(b));
        reveal_strlit("_");
        match (a, b) {
            (TypeV::Record(m), TypeV::Record(n)) => {
                nominal_decodes("r"@, m, n, x, y);
            },
            (TypeV::Sum(m), TypeV::Sum(n)) => {
                nominal_decodes("s"@, m, n, x, y);
            },
            (TypeV::Array(i, k), TypeV::Array(j, l)) => {
                let u = "_"@ + (type_code(*i) + x);
                let v = "_"@ + (type_code(*j) + y);
                assert(type_code(a) + x =~= "a"@ + (dec(k as nat) + u));
                assert(type_code(b) + y =~= "a"@ + (dec(l as nat) + v));
                same_front("a"@, dec(k as nat) + u, dec(l as nat) + v);
                dec_decodes(k as nat, l as nat, u, v);
                same_front("_"@, type_code(*i) + x, type_code(*j) + y);
                codes_decode(*i, *j, x, y);
            },
            (TypeV::Slice(i), TypeV::Slice(j)) => {
                assert(type_code(a) + x =~= "sl_"@ + (type_code(*i) + x));
                assert(type_code(b) + y =~= "sl_"@ + (type_code(*j) + y));
                same_front("sl_"@, type_code(*i) + x, type_code(*j) + y);
                codes_decode(*i, *j, x, y);
            },
            (TypeV::Nullable(i), TypeV::Nullable(j)) => {
                assert(type_code(a) + x =~= "opt_"@ + (type_code(*i) + x));
                assert(type_code(b) + y =~= "opt_"@ + (type_code(*j) + y));
                same_front("opt_"@, type_code(*i) + x, type_code(*j) + y);
                codes_decode(*i, *j, x, y);
            },
            (TypeV::Tuple(ts), TypeV::Tuple(us)) => {
                let u = "_"@ + (join(type_codes(ts), "_"@) + x);
                let v = "_"@ + (join(type_codes(us), "_"@) + y);
                assert(type_code(a) + x =~= "tup"@ + (dec(ts.len()) + u));
                assert(type_code(b) + y =~= "tup"@ + (dec(us.len()) + v));
                same_front("tup"@, dec(ts.len()) + u, dec(us.len()) + v);
                dec_decodes(ts.len(), us.len(), u, v);
                same_front(
                    "_"@,
                    join(type_codes(ts), "_"@) + x,
                    join(type_codes(us), "_"@) + y,
                );
                lists_decode(ts, us, x, y);
            },
            (TypeV::Fun(ts, i), TypeV::Fun(us, j)) => {
                let rx = "_"@ + (type_code(*i) + x);
                let ry = "_"@ + (type_code(*j) + y);
                let u = "_"@ + (join(type_codes(ts), "_"@) + rx);
                let v = "_"@ + (join(type_codes(us), "_"@) + ry);
                assert(type_code(a) + x =~= "fn"@ + (dec(ts.len()) + u));
                assert(type_code(b) + y =~= "fn"@ + (dec(us.len()) + v));
                same_front("fn"@, dec(ts.len()) + u, dec(us.len()) + v);
                dec_decodes(ts.len(), us.len(), u, v);
                same_front(
                    "_"@,
                    join(type_codes(ts), "_"@) + rx,
                    join(type_codes(us), "_"@) + ry,
                );
                lists_decode(ts, us, rx, ry);
                same_front("_"@, type_code(*i) + x, type_code(*j) + y);
                codes_decode(*i, *j, x, y);
            },
            _ => {
                assert(a == b);
                same_front(type_code(a), x, y);
            },
        }
    }
}

proof fn nominal_decodes(tag: Seq<char>, m: NominalV, n: NominalV, x: Seq<char>, y: Seq<char>)
    requires
        entries_settled(m.subst),
        entries_settled(n.subst),
        follows(x),
        follows(y),
        (tag + dec_signed(m.id as int) + entries_code(entry_codes(m.subst))) + x == (tag + dec_signed(
            n.id as int,
        ) + entries_code(entry_codes(n.subst))) + y,
    ensures
        m.id == n.id,
        bare_entries(m.subst) == bare_entries(n.subst),
        x == y,
    decreases m, n,
{
    reveal_strlit("_");
    reveal_strlit("g");
    let u = entries_code(entry_codes(m.subst)) + x;
    let v = entries_code(entry_codes(n.subst)) + y;
    assert((tag + dec_signed(m.id as int) + entries_code(entry_codes(m.subst))) + x =~= tag + (dec_signed(
        m.id as int,
    ) + u));
    assert((tag + dec_signed(n.id as int) + entries_code(entry_codes(n.subst))) + y =~= tag + (dec_signed(
        n.id as int,
    ) + v));
    same_front(tag, dec_signed(m.id as int) + u, dec_signed(n.id as int) + v);
    if m.subst.len() > 0 {
        assert(u[0] == 'g');
    } else {
        assert(u =~= x);
    }
    if n.subst.len() > 0 {
        assert(v[0] == 'g');
    } else {
        assert(v =~= y);
    }
    dec_signed_decodes(m.id as int, n.id as int, u, v);
    if m.subst.len() > 0 {
        assert(n.subst.len() > 0);
        let p = join(entry_codes(m.subst), "_"@) + x;
        let q = join(entry_codes(n.subst), "_"@) + y;
        assert(u =~= "g"@ + (dec(m.subst.len()) + ("_"@ + p)));
        assert(v =~= "g"@ + (dec(n.subst.len()) + ("_"@ + q)));
        same_front("g"@, dec(m.subst.len()) + ("_"@ + p), dec(n.subst.len()) + ("_"@ + q));
        dec_decodes(m.subst.len(), n.subst.len(), "_"@ + p, "_"@ + q);
        same_front("_"@, p, q);
        entries_decode(m.subst, n.subst, x, y);
    } else {
        assert(n.subst.len() == 0);
        assert(bare_entries(m.subst) =~= bare_entries(n.subst));
    }
}

proof fn entry_decodes(
    a: (Seq<char>, TypeV),
    b: (Seq<char>, TypeV),
    x: Seq<char>,
    y: Seq<char>,
)
    requires
        settled(a.1),
        settled(b.1),
        follows(x),
        follows(y),
        entry_code(a) + x == entry_code(b) + y,
    ensures
        a.0 == b.0,
        bare(a.1) == bare(b.1),
        x == y,
    decreases a, b,
{
    reveal_strlit("_");
    let ca = type_code(a.1) + x;
    let cb = type_code(b.1) + y;
    let u = a.0 + ("_"@ + ca);
    let v = b.0 + ("_"@ + cb);
    assert(entry_code(a) + x =~= dec(a.0.len()) + ("_"@ + u));
    assert(entry_code(b) + y =~= dec(b.0.len()) + ("_"@ + v));
    dec_decodes(a.0.len(), b.0.len(), "_"@ + u, "_"@ + v);
    same_front("_"@, u, v);
    assert(u.take(a.0.len() as int) =~= a.0);
    assert(v.take(b.0.len() as int) =~= b.0);
    same_front(a.0, "_"@ + ca, "_"@ + cb);
    same_front("_"@, ca, cb);
    codes_decode(a.1, b.1, x, y);
}

proof fn entries_decode(
    a: Seq<(Seq<char>, TypeV)>,
    b: Seq<(Seq<char>, TypeV)>,
    x: Seq<char>,
    y: Seq<char>,
)
    requires
        a.len() == b.len(),
        entries_settled(a),
        entries_settled(b),
        follows(x),
        follows(y),
        join(entry_codes(a), "_"@) + x == join(entry_codes(b), "_"@) + y,
    ensures
        bare_entries(a) == bare_entries(b),
        x == y,
    decreases a, b,
{
    reveal_strlit("_");
    if a.len() == 0 {
        assert(bare_entries(a) =~= bare_entries(b));
        assert(join(entry_codes(a), "_"@) + x =~= x);
        assert(join(entry_codes(b), "_"@) + y =~= y);
    } else if a.len() == 1 {
        entry_decodes(a[0], b[0], x, y);
        assert(bare_entries(a) =~= bare_entries(b));
    } else {
        let ra = a.drop_first();
        let rb = b.drop_first();
        join_from_front(entry_codes(a), "_"@);
        join_from_front(entry_codes(b), "_"@);
        assert(entry_codes(a).drop_first() =~= entry_codes(ra));
        assert(entry_codes(b).drop_first() =~= entry_codes(rb));
        let u = join(entry_codes(ra), "_"@) + x;
        let v = join(entry_codes(rb), "_"@) + y;
        assert(join(entry_codes(a), "_"@) + x =~= entry_code(a[0]) + ("_"@ + u));
        assert(join(entry_codes(b), "_"@) + y =~= entry_code(b[0]) + ("_"@ + v));
        entry_decodes(a[0], b[0], "_"@ + u, "_"@ + v);
        same_front("_"@, u, v);
        entries_decode(ra, rb, x, y);
        assert forall|i: int| 0 <= i < a.len() implies bare_entries(a)[i] == bare_entries(
            b,
        )[i] by {
            if i > 0 {
                assert(bare_entries(ra)[i - 1] == bare_entries(rb)[i - 1]);
                assert(ra[i - 1] == a[i] && rb[i - 1] == b[i]);
            }
        }
        assert(bare_entries(a) =~= bare_entries(b));
    }
}

proof fn lists_decode(a: Seq<TypeV>, b: Seq<TypeV>, x: Seq<char>, y: Seq<char>)
    requires
        a.len() == b.len(),
        all_settled(a),
        all_settled(b),
        follows(x),
        follows(y),
        join(type_codes(a), "_"@) + x == join(type_codes(b), "_"@) + y,
    ensures
        bare_types(a) == bare_types(b),
        x == y,
    decreases a, b,
{
    reveal_strlit("_");
    if a.len() == 0 {
        assert(bare_types(a) =~= bare_types(b));
        assert(join(type_codes(a), "_"@) + x =~= x);
        assert(join(type_codes(b), "_"@) + y =~= y);
    } else if a.len() == 1 {
        codes_decode(a[0], b[0], x, y);
        assert(bare_types(a) =~= bare_types(b));
    } else {
        let ra = a.drop_first();
        let rb = b.drop_first();
        join_from_front(type_codes(a), "_"@);
        join_from_front(type_codes(b), "_"@);
        assert(type_codes(a).drop_first() =~= type_codes(ra));
        assert(type_codes(b).drop_first() =~= type_codes(rb));
        let u = join(type_codes(ra), "_"@) + x;
        let v = join(type_codes(rb), "_"@) + y;
        assert(join(type_codes(a), "_"@) + x =~= type_code(a[0]) + ("_"@ + u));
        assert(join(type_codes(b), "_"@) + y =~= type_code(b[0]) + ("_"@ + v));
        codes_decode(a[0], b[0], "_"@ + u, "_"@ + v);
        same_front("_"@, u, v);
        lists_decode(ra, rb, x, y);
        assert forall|i: int| 0 <= i < a.len() implies bare_types(a)[i] == bare_types(b)[i] by {
            if i > 0 {
                assert(bare_types(ra)[i - 1] == bare_types(rb)[i - 1]);
                assert(ra[i - 1] == a[i] && rb[i - 1] == b[i]);
            }
        }
        assert(bare_types(a) =~= bare_types(b));
    }
}

/// The same without knowing that the lists are equally long, when nothing follows.
proof fn whole_lists_decode(a: Seq<TypeV>, b: Seq<TypeV>)
    requires
        a.len() > 0,
        b.len() > 0,
        all_settled(a),
        all_settled(b),
        join(type_codes(a), "_"@) == join(type_codes(b), "_"@),
    ensures
        bare_types(a) == bare_types(b),
    decreases a.len(),
{
    reveal_strlit("_");
    let none = Seq::<char>::empty();
    if a.len() == b.len() {
        lists_decode(a, b, none, none);
    } else {
        let ra = a.drop_first();
        let rb = b.drop_first();
        let u = if a.len() == 1 {
            none
        } else {
            join_from_front(type_codes(a), "_"@);
            assert(type_codes(a).drop_first() =~= type_codes(ra));
            "_"@ + join(type_codes(ra), "_"@)
        };
        let v = if b.len() == 1 {
            none
        } else {
            join_from_front(type_codes(b), "_"@);
            assert(type_codes(b).drop_first() =~= type_codes(rb));
            "_"@ + join(type_codes(rb), "_"@)
        };
        assert(join(type_codes(a), "_"@) =~= type_code(a[0]) + u);
        assert(join(type_codes(b), "_"@) =~= type_code(b[0]) + v);
        codes_decode(a[0], b[0], u, v);
        assert(a.len() > 1 && b.len() > 1);
        same_front("_"@, join(type_codes(ra), "_"@), join(type_codes(rb), "_"@));
        whole_lists_decode(ra, rb);
        assert(bare_types(ra).len() == bare_types(rb).len());
        assert(false);
    }
}

proof fn dec_starts_with_digit(n: nat)
    ensures
        dec(n).len() >= 1,
        dec(n)[0] != '-',
    decreases n,
{
    if n < 10 {
        digit_chars(n, 0);
    } else {
        dec_starts_with_digit(n / 10);
        assert(dec(n)[0] == dec(n / 10)[0]);
    }
}

// ---- instances ----

/// What names an instance for argument types, after the symbol of what it is an
/// instance of.
pub open spec fn instance_suffix(ts: Seq<TypeV>) -> Seq<char> {
    if ts.len() == 0 {
        Seq::empty()
    } else {
        "__"@ + sanitized(join(type_codes(ts), "_"@))
    }
}

fn suffix(arg_types: &Vec<Type>) -> (r: String)
    ensures
        r@ == instance_suffix(types_view(arg_types@)),
{
    assert(types_view(arg_types@).len() == arg_types.len());
    if arg_types.len() == 0 {
        String::new()
    } else {
        let args = mangle_all(arg_types);
        let joined = join_strings(args.as_slice(), "_");
        let tail = sanitize(joined.as_str());
        cat2("__", tail.as_str())
    }
}

/// The symbol of one function instance: the function's symbol and the concrete
/// argument types it is specialized for.
pub fn mangle_fn_instance(symbol: &str, arg_types: &Vec<Type>) -> (r: String)
    ensures
        r@ == fn_symbol(symbol@) + instance_suffix(types_view(arg_types@)),
{
    let base = mangle_fn(symbol);
    let tail = suffix(arg_types);
    cat2(base.as_str(), tail.as_str())
}

/// The symbol of one method instance.
pub fn mangle_method_instance(qualifier: &str, method: &str, arg_types: &Vec<Type>) -> (r: String)
    ensures
        r@ == method_symbol(qualifier@, method@) + instance_suffix(types_view(arg_types@)),
{
    let base = mangle_method(qualifier, method);
    let tail = suffix(arg_types);
    cat2(base.as_str(), tail.as_str())
}

/// Instances of one symbol for distinct argument types differ: two that share a name are
/// for argument types that are the same but for `const`, `mut` and `ref` and the names of
/// nominal types.
pub proof fn instances_differ(base: Seq<char>, a: Seq<TypeV>, b: Seq<TypeV>)
    requires
        vars_all(a) == Set::<u32>::empty(),
        vars_all(b) == Set::<u32>::empty(),
        base + instance_suffix(a) == base + instance_suffix(b),
    ensures
        bare_types(a) == bare_types(b),
{
    reveal_strlit("__");
    known_are_settled(a);
    known_are_settled(b);
    same_front(base, instance_suffix(a), instance_suffix(b));
    if a.len() > 0 {
        assert(instance_suffix(a).len() >= 2);
        same_front(
            "__"@,
            sanitized(join(type_codes(a), "_"@)),
            sanitized(join(type_codes(b), "_"@)),
        );
        sanitized_injective(join(type_codes(a), "_"@), join(type_codes(b), "_"@));
        whole_lists_decode(a, b);
    } else {
        assert(b.len() == 0);
        assert(bare_types(a) =~= bare_types(b));
    }
}

} // verus!
