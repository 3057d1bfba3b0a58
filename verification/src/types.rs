//! The Prepoly type representation. `Unknown` models the parts inference leaves
//! open, which the back end handles via runtime tag dispatch.

use vstd::prelude::*;
use std::collections::{HashMap, HashSet};
use crate::ast::{named_type_exprs_view, type_exprs_view, TypeExpr, TypeExprV};
use crate::table::{find_key, find_lower, first_pos, first_pos_facts, keys_of, lookup, lower_pos_facts, names, put_sorted, put_sorted_sorted, sorted_keys};
use crate::text::{dec, dec_string, join, join_strings, str_eq, texts};

verus! {

/// Id of the built-in `Result` type.
pub const RESULT_TYPE_ID: i32 = 0;

pub const RESULT_TYPE_NAME: &'static str = "Result";

/// Substitution key of a `Result`'s success payload.
pub const RESULT_OK_VALUE: &'static str = "Ok.value";

/// Substitution key of a `Result`'s error payload.
pub const RESULT_ERR_ERROR: &'static str = "Err.error";

/// Type id of a *structural* record: one with no declaration, whose layout and
/// identity come from its field substitution. Negative so it never collides with
/// a declared type's id.
pub const STRUCTURAL_RECORD_ID: i32 = i32::MIN;

pub const STRUCTURAL_RECORD_NAME: &'static str = "<structural>";

/// Placeholder `Unknown` id that [`resolve`] emits for the `infer` type word and
/// for the error payload a `T!` annotation leaves open. Each occurrence is
/// replaced with a distinct fresh variable by [`freshen_infer`]; it is never
/// minted as a genuine `Unknown` id.
pub const INFER_VAR: u32 = u32::MAX;

/// Integer types.
#[derive(Clone, Copy, Debug, PartialEq, Eq, Structural, Hash)]
pub enum IntKind {
    I8,
    I16,
    I32,
    I64,
    U8,
    U16,
    U32,
    U64,
}

/// Float types.
#[derive(Clone, Copy, Debug, PartialEq, Eq, Structural, Hash)]
pub enum FloatKind {
    F32,
    F64,
}

/// A Prepoly type.
#[derive(Debug, PartialEq)]
pub enum Type {
    Bool,
    Int(IntKind),
    Float(FloatKind),
    Str,
    Void,
    Never,
    Record(NominalType),
    Sum(NominalType),
    Array(Box<Type>, usize),
    Slice(Box<Type>),
    /// A fixed-length, heterogeneous tuple `[T0, T1, ...]`.
    Tuple(Vec<Type>),
    Fun(Vec<Type>, Box<Type>),
    Nullable(Box<Type>),
    ConstOf(Box<Type>),
    /// `mut(T)`: a place of this type may be mutated.
    Mut(Box<Type>),
    /// `ref(T)`, or `ref(mut(T))` for a mutable reference.
    Ref(Box<Type>),
    Unknown(u32),
    SelfType,
}

/// A nominal type substitution keyed by lowered member paths, in key order.
///
/// For the built-in `Result`, `Ok.value` and `Err.error` carry the statically
/// known payload types.
#[derive(Debug, Default, PartialEq)]
pub struct Substitution {
    entries: Vec<(String, Type)>,
}

/// A lowered nominal type reference. `id` is the runtime type id assigned by
/// HIR lowering; `name` is retained for diagnostics and lookup tables.
#[derive(Debug, PartialEq)]
pub struct NominalType {
    pub id: i32,
    pub name: String,
    pub substitution: Substitution,
}

/// The HIR kind of a user-defined nominal type name.
#[derive(Clone, Copy, Debug, PartialEq, Eq, Structural)]
pub enum NominalKind {
    Record,
    Sum,
}

/// HIR metadata required to resolve a nominal type annotation.
#[derive(Clone, Copy, Debug, PartialEq, Eq, Structural)]
pub struct NominalInfo {
    pub id: i32,
    pub kind: NominalKind,
}

// ---- models ----

/// The model of [`Type`].
#[verifier::ext_equal]
pub ghost enum TypeV {
    Bool,
    Int(IntKind),
    Float(FloatKind),
    Str,
    Void,
    Never,
    Record(NominalV),
    Sum(NominalV),
    Array(Box<TypeV>, usize),
    Slice(Box<TypeV>),
    Tuple(Seq<TypeV>),
    Fun(Seq<TypeV>, Box<TypeV>),
    Nullable(Box<TypeV>),
    ConstOf(Box<TypeV>),
    Mut(Box<TypeV>),
    Ref(Box<TypeV>),
    Unknown(u32),
    SelfType,
}

/// The model of [`NominalType`].
#[verifier::ext_equal]
pub ghost struct NominalV {
    pub id: i32,
    pub name: Seq<char>,
    pub subst: Seq<(Seq<char>, TypeV)>,
}

pub open spec fn type_view(t: Type) -> TypeV
    decreases t,
{
    match t {
        Type::Bool => TypeV::Bool,
        Type::Int(k) => TypeV::Int(k),
        Type::Float(k) => TypeV::Float(k),
        Type::Str => TypeV::Str,
        Type::Void => TypeV::Void,
        Type::Never => TypeV::Never,
        Type::Record(n) => TypeV::Record(
            NominalV { id: n.id, name: n.name@, subst: subst_view(n.substitution) },
        ),
        Type::Sum(n) => TypeV::Sum(
            NominalV { id: n.id, name: n.name@, subst: subst_view(n.substitution) },
        ),
        Type::Array(t, n) => TypeV::Array(Box::new(type_view(*t)), n),
        Type::Slice(t) => TypeV::Slice(Box::new(type_view(*t))),
        Type::Tuple(ts) => TypeV::Tuple(types_view(ts@)),
        Type::Fun(ps, r) => TypeV::Fun(types_view(ps@), Box::new(type_view(*r))),
        Type::Nullable(t) => TypeV::Nullable(Box::new(type_view(*t))),
        Type::ConstOf(t) => TypeV::ConstOf(Box::new(type_view(*t))),
        Type::Mut(t) => TypeV::Mut(Box::new(type_view(*t))),
        Type::Ref(t) => TypeV::Ref(Box::new(type_view(*t))),
        Type::Unknown(id) => TypeV::Unknown(id),
        Type::SelfType => TypeV::SelfType,
    }
}

pub open spec fn types_view(ts: Seq<Type>) -> Seq<TypeV>
    decreases ts,
{
    Seq::new(ts.len(), |i: int| if 0 <= i < ts.len() { type_view(ts[i]) } else { arbitrary() })
}

pub open spec fn nominal_view(n: NominalType) -> NominalV {
    NominalV { id: n.id, name: n.name@, subst: subst_view(n.substitution) }
}

pub closed spec fn subst_view(s: Substitution) -> Seq<(Seq<char>, TypeV)>
    decreases s,
{
    Seq::new(
        s.entries@.len(),
        |i: int|
            if 0 <= i < s.entries@.len() {
                (s.entries@[i].0@, type_view(s.entries@[i].1))
            } else {
                arbitrary()
            },
    )
}

impl View for Type {
    type V = TypeV;

    open spec fn view(&self) -> TypeV {
        type_view(*self)
    }
}

impl View for NominalType {
    type V = NominalV;

    open spec fn view(&self) -> NominalV {
        nominal_view(*self)
    }
}

impl View for Substitution {
    type V = Seq<(Seq<char>, TypeV)>;

    open spec fn view(&self) -> Seq<(Seq<char>, TypeV)> {
        subst_view(*self)
    }
}

/// The model of an optional type.
pub open spec fn opt_type(o: Option<Type>) -> Option<TypeV> {
    match o {
        Some(t) => Some(t@),
        None => None,
    }
}

/// The model of an optional borrowed type.
pub open spec fn opt_type_ref(o: Option<&Type>) -> Option<TypeV> {
    match o {
        Some(t) => Some(t@),
        None => None,
    }
}

// ---- copies and comparison ----

impl Clone for Type {
    fn clone(&self) -> (r: Type)
        ensures
            r@ == self@,
    {
        clone_type(self)
    }
}

impl Clone for NominalType {
    fn clone(&self) -> (r: NominalType)
        ensures
            r@ == self@,
    {
        clone_nominal(self)
    }
}

impl Clone for Substitution {
    fn clone(&self) -> (r: Substitution)
        ensures
            r@ == self@,
    {
        clone_subst(self)
    }
}

/// A copy of `t`.
#[verifier::rlimit(50)]
pub fn clone_type(t: &Type) -> (r: Type)
    ensures
        r@ == t@,
    decreases *t,
{
    match t {
        Type::Bool => Type::Bool,
        Type::Int(k) => Type::Int(*k),
        Type::Float(k) => Type::Float(*k),
        Type::Str => Type::Str,
        Type::Void => Type::Void,
        Type::Never => Type::Never,
        Type::Record(n) => Type::Record(clone_nominal(n)),
        Type::Sum(n) => Type::Sum(clone_nominal(n)),
        Type::Array(t, n) => Type::Array(Box::new(clone_type(t)), *n),
        Type::Slice(t) => Type::Slice(Box::new(clone_type(t))),
        Type::Tuple(ts) => Type::Tuple(clone_types(ts)),
        Type::Fun(ps, r) => Type::Fun(clone_types(ps), Box::new(clone_type(r))),
        Type::Nullable(t) => Type::Nullable(Box::new(clone_type(t))),
        Type::ConstOf(t) => Type::ConstOf(Box::new(clone_type(t))),
        Type::Mut(t) => Type::Mut(Box::new(clone_type(t))),
        Type::Ref(t) => Type::Ref(Box::new(clone_type(t))),
        Type::Unknown(id) => Type::Unknown(*id),
        Type::SelfType => Type::SelfType,
    }
}

/// A copy of a list of types.
pub fn clone_types(ts: &Vec<Type>) -> (r: Vec<Type>)
    ensures
        types_view(r@) == types_view(ts@),
    decreases *ts,
{
    let mut out: Vec<Type> = Vec::new();
    for i in 0..ts.len()
        invariant
            out.len() == i,
            forall|j: int| 0 <= j < i ==> (#[trigger] out[j])@ == ts[j]@,
    {
        out.push(clone_type(&ts[i]));
    }
    assert(types_view(out@) =~= types_view(ts@));
    out
}

fn clone_nominal(n: &NominalType) -> (r: NominalType)
    ensures
        r@ == n@,
    decreases *n,
{
    NominalType { id: n.id, name: n.name.clone(), substitution: clone_subst(&n.substitution) }
}

fn clone_subst(s: &Substitution) -> (r: Substitution)
    ensures
        r@ == s@,
    decreases *s,
{
    let mut entries: Vec<(String, Type)> = Vec::new();
    for i in 0..s.entries.len()
        invariant
            entries.len() == i,
            forall|j: int|
                0 <= j < i ==> (#[trigger] entries[j]).0@ == s.entries[j].0@ && entries[j].1@
                    == s.entries[j].1@,
    {
        entries.push((s.entries[i].0.clone(), clone_type(&s.entries[i].1)));
    }
    proof {
        use_type_invariant(s);
        assert(subst_view(Substitution { entries }) =~= s@);
    }
    Substitution { entries }
}

/// A copy of an optional type.
pub fn clone_opt_type(o: &Option<Type>) -> (r: Option<Type>)
    ensures
        opt_type(r) == opt_type(*o),
{
    match o {
        Some(t) => Some(clone_type(t)),
        None => None,
    }
}

/// Whether `a` and `b` are the same type.
#[verifier::rlimit(50)]
pub fn same_type(a: &Type, b: &Type) -> (r: bool)
    ensures
        r == (a@ == b@),
    decreases *a,
{
    match (a, b) {
        (Type::Bool, Type::Bool) => true,
        (Type::Int(x), Type::Int(y)) => *x == *y,
        (Type::Float(x), Type::Float(y)) => *x == *y,
        (Type::Str, Type::Str) => true,
        (Type::Void, Type::Void) => true,
        (Type::Never, Type::Never) => true,
        (Type::Record(x), Type::Record(y)) => same_nominal_ref(x, y),
        (Type::Sum(x), Type::Sum(y)) => same_nominal_ref(x, y),
        (Type::Array(x, n), Type::Array(y, m)) => *n == *m && same_type(x, y),
        (Type::Slice(x), Type::Slice(y)) => same_type(x, y),
        (Type::Tuple(x), Type::Tuple(y)) => same_types(x, y),
        (Type::Fun(x, r), Type::Fun(y, s)) => same_types(x, y) && same_type(r, s),
        (Type::Nullable(x), Type::Nullable(y)) => same_type(x, y),
        (Type::ConstOf(x), Type::ConstOf(y)) => same_type(x, y),
        (Type::Mut(x), Type::Mut(y)) => same_type(x, y),
        (Type::Ref(x), Type::Ref(y)) => same_type(x, y),
        (Type::Unknown(x), Type::Unknown(y)) => *x == *y,
        (Type::SelfType, Type::SelfType) => true,
        _ => false,
    }
}

/// Whether two lists hold the same types in the same order.
pub fn same_types(a: &Vec<Type>, b: &Vec<Type>) -> (r: bool)
    ensures
        r == (types_view(a@) == types_view(b@)),
    decreases *a,
{
    if a.len() != b.len() {
        assert(types_view(a@).len() != types_view(b@).len());
        return false;
    }
    for i in 0..a.len()
        invariant
            a.len() == b.len(),
            forall|j: int| 0 <= j < i ==> (#[trigger] a[j])@ == b[j]@,
    {
        if !same_type(&a[i], &b[i]) {
            assert(types_view(a@)[i as int] != types_view(b@)[i as int]);
            return false;
        }
    }
    assert(types_view(a@) =~= types_view(b@));
    true
}

fn same_nominal_ref(a: &NominalType, b: &NominalType) -> (r: bool)
    ensures
        r == (a@ == b@),
    decreases *a,
{
    a.id == b.id && a.name == b.name && same_subst(&a.substitution, &b.substitution)
}

fn same_subst(a: &Substitution, b: &Substitution) -> (r: bool)
    ensures
        r == (a@ == b@),
    decreases *a,
{
    if a.entries.len() != b.entries.len() {
        assert(a@.len() != b@.len());
        return false;
    }
    for i in 0..a.entries.len()
        invariant
            a.entries.len() == b.entries.len(),
            forall|j: int| 0 <= j < i ==> #[trigger] a@[j] == b@[j],
    {
        if a.entries[i].0 != b.entries[i].0 || !same_type(&a.entries[i].1, &b.entries[i].1) {
            assert(a@[i as int] != b@[i as int]);
            return false;
        }
        assert(a@[i as int] == b@[i as int]);
    }
    assert(a@ =~= b@);
    true
}

// ---- numeric kinds ----

/// The name of an integer type.
pub open spec fn int_name(k: IntKind) -> Seq<char> {
    match k {
        IntKind::I8 => "int8"@,
        IntKind::I16 => "int16"@,
        IntKind::I32 => "int32"@,
        IntKind::I64 => "int64"@,
        IntKind::U8 => "uint8"@,
        IntKind::U16 => "uint16"@,
        IntKind::U32 => "uint32"@,
        IntKind::U64 => "uint64"@,
    }
}

/// The integer type a name denotes.
pub open spec fn int_of_name(s: Seq<char>) -> Option<IntKind> {
    if s == "int8"@ {
        Some(IntKind::I8)
    } else if s == "int16"@ {
        Some(IntKind::I16)
    } else if s == "int32"@ {
        Some(IntKind::I32)
    } else if s == "int64"@ {
        Some(IntKind::I64)
    } else if s == "uint8"@ {
        Some(IntKind::U8)
    } else if s == "uint16"@ {
        Some(IntKind::U16)
    } else if s == "uint32"@ {
        Some(IntKind::U32)
    } else if s == "uint64"@ {
        Some(IntKind::U64)
    } else {
        None
    }
}

/// The bit width of an integer type.
pub open spec fn int_bits(k: IntKind) -> u32 {
    match k {
        IntKind::I8 | IntKind::U8 => 8,
        IntKind::I16 | IntKind::U16 => 16,
        IntKind::I32 | IntKind::U32 => 32,
        IntKind::I64 | IntKind::U64 => 64,
    }
}

/// Whether an integer type is signed.
pub open spec fn int_signed(k: IntKind) -> bool {
    k is I8 || k is I16 || k is I32 || k is I64
}

/// The bit width of a float type.
pub open spec fn float_bits(k: FloatKind) -> u32 {
    match k {
        FloatKind::F32 => 32,
        FloatKind::F64 => 64,
    }
}

/// The name of a float type.
pub open spec fn float_name(k: FloatKind) -> Seq<char> {
    match k {
        FloatKind::F32 => "float32"@,
        FloatKind::F64 => "float64"@,
    }
}

impl IntKind {
    /// The bit width of this integer type.
    pub fn bits(self) -> (r: u32)
        ensures
            r == int_bits(self),
    {
        match self {
            IntKind::I8 | IntKind::U8 => 8,
            IntKind::I16 | IntKind::U16 => 16,
            IntKind::I32 | IntKind::U32 => 32,
            IntKind::I64 | IntKind::U64 => 64,
        }
    }

    /// Whether this integer type is signed.
    pub fn is_signed(self) -> (r: bool)
        ensures
            r == int_signed(self),
    {
        matches!(self, IntKind::I8 | IntKind::I16 | IntKind::I32 | IntKind::I64)
    }

    /// The integer type of a given signedness and bit width; a width that no
    /// integer type has gives the 32-bit type.
    pub fn of(signed: bool, bits: u32) -> (r: IntKind)
        ensures
            int_signed(r) == signed,
            int_bits(r) == (if bits == 8 || bits == 16 || bits == 64 {
                bits
            } else {
                32
            }),
    {
        if signed {
            if bits == 8 {
                IntKind::I8
            } else if bits == 16 {
                IntKind::I16
            } else if bits == 64 {
                IntKind::I64
            } else {
                IntKind::I32
            }
        } else {
            if bits == 8 {
                IntKind::U8
            } else if bits == 16 {
                IntKind::U16
            } else if bits == 64 {
                IntKind::U64
            } else {
                IntKind::U32
            }
        }
    }

    pub fn name(self) -> (r: &'static str)
        ensures
            r@ == int_name(self),
    {
        match self {
            IntKind::I8 => "int8",
            IntKind::I16 => "int16",
            IntKind::I32 => "int32",
            IntKind::I64 => "int64",
            IntKind::U8 => "uint8",
            IntKind::U16 => "uint16",
            IntKind::U32 => "uint32",
            IntKind::U64 => "uint64",
        }
    }

    pub fn from_name(s: &str) -> (r: Option<IntKind>)
        ensures
            r == int_of_name(s@),
    {
        if str_eq(s, "int8") {
            Some(IntKind::I8)
        } else if str_eq(s, "int16") {
            Some(IntKind::I16)
        } else if str_eq(s, "int32") {
            Some(IntKind::I32)
        } else if str_eq(s, "int64") {
            Some(IntKind::I64)
        } else if str_eq(s, "uint8") {
            Some(IntKind::U8)
        } else if str_eq(s, "uint16") {
            Some(IntKind::U16)
        } else if str_eq(s, "uint32") {
            Some(IntKind::U32)
        } else if str_eq(s, "uint64") {
            Some(IntKind::U64)
        } else {
            None
        }
    }

    /// Runtime tag value.
    pub fn tag(self) -> (r: i64)
        ensures
            r == 8 + (if int_signed(self) {
                0int
            } else {
                4int
            }) + (if int_bits(self) == 8 {
                0int
            } else if int_bits(self) == 16 {
                1int
            } else if int_bits(self) == 32 {
                2int
            } else {
                3int
            }),
    {
        match self {
            IntKind::I8 => 8,
            IntKind::I16 => 9,
            IntKind::I32 => 10,
            IntKind::I64 => 11,
            IntKind::U8 => 12,
            IntKind::U16 => 13,
            IntKind::U32 => 14,
            IntKind::U64 => 15,
        }
    }
}

/// Signedness and width determine an integer type: [`IntKind::of`] undoes
/// [`IntKind::is_signed`] and [`IntKind::bits`].
pub proof fn int_kind_determined(a: IntKind, b: IntKind)
    requires
        int_signed(a) == int_signed(b),
        int_bits(a) == int_bits(b),
    ensures
        a == b,
{
}

/// A name read back is the type it names, and only its own name denotes a type.
pub proof fn int_name_round_trip(k: IntKind, s: Seq<char>)
    ensures
        int_of_name(int_name(k)) == Some(k),
        int_of_name(s) == Some(k) <==> s == int_name(k),
{
    reveal_strlit("int8");
    reveal_strlit("int16");
    reveal_strlit("int32");
    reveal_strlit("int64");
    reveal_strlit("uint8");
    reveal_strlit("uint16");
    reveal_strlit("uint32");
    reveal_strlit("uint64");
    assert("int8"@.len() == 4 && "int16"@.len() == 5 && "int32"@.len() == 5 && "int64"@.len() == 5);
    assert("uint8"@.len() == 5 && "uint16"@.len() == 6 && "uint32"@.len() == 6 && "uint64"@.len()
        == 6);
    assert("int16"@[3] == '1' && "int32"@[3] == '3' && "int64"@[3] == '6' && "uint8"@[3] == 't');
    assert("uint16"@[4] == '1' && "uint32"@[4] == '3' && "uint64"@[4] == '6');
}

impl FloatKind {
    /// The bit width of this float type.
    pub fn bits(self) -> (r: u32)
        ensures
            r == float_bits(self),
    {
        match self {
            FloatKind::F32 => 32,
            FloatKind::F64 => 64,
        }
    }

    pub fn name(self) -> (r: &'static str)
        ensures
            r@ == float_name(self),
    {
        match self {
            FloatKind::F32 => "float32",
            FloatKind::F64 => "float64",
        }
    }

    /// Runtime tag value.
    pub fn tag(self) -> (r: i64)
        ensures
            r == (if self is F32 {
                16i64
            } else {
                17i64
            }),
    {
        match self {
            FloatKind::F32 => 16,
            FloatKind::F64 => 17,
        }
    }
}

// ---- substitutions ----

impl Substitution {
    #[verifier::type_invariant]
    spec fn in_key_order(self) -> bool {
        sorted_keys(subst_view(self))
    }

    pub fn empty() -> (r: Substitution)
        ensures
            r@ == Seq::<(Seq<char>, TypeV)>::empty(),
    {
        let r = Substitution { entries: Vec::new() };
        assert(r@ =~= Seq::<(Seq<char>, TypeV)>::empty());
        r
    }

    pub fn is_empty(&self) -> (r: bool)
        ensures
            r == (self@.len() == 0),
    {
        self.entries.len() == 0
    }

    /// Set the type of `key`.
    pub fn insert(&mut self, key: &str, ty: Type)
        ensures
            final(self)@ == put_sorted(old(self)@, key@, ty@),
            sorted_keys(final(self)@),
    {
        let ghost before = *self;
        proof {
            use_type_invariant(&*self);
            put_sorted_sorted(self@, key@, ty@);
            assert(names(self.entries@) =~= keys_of(self@));
            lower_pos_facts(keys_of(self@), key@);
        }
        let mut entries: Vec<(String, Type)> = Vec::new();
        std::mem::swap(&mut entries, &mut self.entries);
        let ghost was = entries@;
        let p = find_lower(&entries, key);
        let present = if p < entries.len() {
            str_eq(entries[p].0.as_str(), key)
        } else {
            false
        };
        let ghost k_text = key@;
        let ghost t_view = ty@;
        if present {
            let kept = entries[p].0.clone();
            entries.set(p, (kept, ty));
        } else {
            entries.insert(p, (key.to_owned(), ty));
        }
        proof {
            let v = subst_view(Substitution { entries });
            let b = subst_view(before);
            assert(v =~= put_sorted(b, k_text, t_view));
        }
        *self = Substitution { entries };
    }

    /// The type of `key`.
    pub fn get(&self, key: &str) -> (r: Option<&Type>)
        ensures
            opt_type_ref(r) == lookup(self@, key@),
            r matches Some(t) ==> decreases_to!(*self => *t),
    {
        let i = find_key(&self.entries, key);
        assert(names(self.entries@) =~= keys_of(self@));
        if i < self.entries.len() {
            Some(&self.entries[i].1)
        } else {
            None
        }
    }

    /// The number of entries.
    pub fn len(&self) -> (r: usize)
        ensures
            r == self@.len(),
            sorted_keys(self@),
    {
        proof {
            use_type_invariant(self);
        }
        self.entries.len()
    }

    /// The `i`-th key in key order.
    pub fn key_at(&self, i: usize) -> (r: &str)
        requires
            i < self@.len(),
        ensures
            r@ == self@[i as int].0,
    {
        self.entries[i].0.as_str()
    }

    /// The type of the `i`-th key in key order.
    pub fn type_at(&self, i: usize) -> (r: &Type)
        requires
            i < self@.len(),
        ensures
            r@ == self@[i as int].1,
            decreases_to!(*self => *r),
    {
        &self.entries[i].1
    }

    /// The entries in key order.
    pub fn iter(&self) -> (r: Vec<(&str, &Type)>)
        ensures
            r.len() == self@.len(),
            forall|i: int|
                0 <= i < r.len() ==> (#[trigger] r[i]).0@ == self@[i].0 && r[i].1@ == self@[i].1,
            sorted_keys(self@),
    {
        proof {
            use_type_invariant(self);
        }
        let mut out: Vec<(&str, &Type)> = Vec::new();
        for i in 0..self.entries.len()
            invariant
                out.len() == i,
                forall|j: int|
                    0 <= j < i ==> (#[trigger] out[j]).0@ == self@[j].0 && out[j].1@ == self@[j].1,
        {
            out.push((self.entries[i].0.as_str(), &self.entries[i].1));
        }
        out
    }

    /// The same keys with other types.
    fn with_types(&self, types: Vec<Type>) -> (r: Substitution)
        requires
            types.len() == self@.len(),
        ensures
            r@ == with_types_view(self@, types_view(types@)),
    {
        proof {
            use_type_invariant(self);
        }
        let mut types = types;
        let ghost all = types@;
        let mut entries: Vec<(String, Type)> = Vec::new();
        let mut i: usize = self.entries.len();
        while i > 0
            invariant
                i <= self.entries.len(),
                self.entries.len() == self@.len() == all.len(),
                types@ == all.take(i as int),
                entries.len() == self.entries.len() - i,
                forall|j: int|
                    0 <= j < entries.len() ==> (#[trigger] entries[j]).0@ == self.entries[i
                        + j].0@ && entries[j].1@ == all[i + j]@,
            decreases i,
        {
            i = i - 1;
            let t = types.pop().unwrap();
            entries.insert(0, (self.entries[i].0.clone(), t));
        }
        proof {
            assert(subst_view(Substitution { entries }) =~= with_types_view(
                self@,
                types_view(all),
            ));
        }
        Substitution { entries }
    }
}

/// `s` with its types replaced, in order, by `ts`.
pub open spec fn with_types_view(s: Seq<(Seq<char>, TypeV)>, ts: Seq<TypeV>) -> Seq<
    (Seq<char>, TypeV),
> {
    Seq::new(s.len(), |i: int| (s[i].0, ts[i]))
}

// ---- nominal types ----

/// The payload types of a `Result` reference.
pub open spec fn nominal_payloads(n: NominalV) -> Option<(TypeV, TypeV)> {
    match (lookup(n.subst, "Ok.value"@), lookup(n.subst, "Err.error"@)) {
        (Some(ok), Some(err)) if n.name == "Result"@ => Some((ok, err)),
        _ => None,
    }
}

/// The model of an optional pair of borrowed types.
pub open spec fn opt_pair(o: Option<(&Type, &Type)>) -> Option<(TypeV, TypeV)> {
    match o {
        Some(p) => Some((p.0@, p.1@)),
        None => None,
    }
}

/// Whether two nominal references denote the same type: equal ids (a negative id
/// is shared, so there the names decide too) and equal substitutions.
pub open spec fn nominals_same(a: NominalV, b: NominalV) -> bool {
    a.id == b.id && (a.id >= 0 || a.name == b.name) && a.subst == b.subst
}

impl NominalType {
    pub fn new(id: i32, name: &str) -> (r: NominalType)
        ensures
            r@ == (NominalV { id, name: name@, subst: Seq::empty() }),
    {
        NominalType { id, name: name.to_owned(), substitution: Substitution::empty() }
    }

    pub fn with_substitution(id: i32, name: &str, substitution: Substitution) -> (r: NominalType)
        ensures
            r@ == (NominalV { id, name: name@, subst: substitution@ }),
    {
        NominalType { id, name: name.to_owned(), substitution }
    }

    pub fn name(&self) -> (r: &str)
        ensures
            r@ == self@.name,
    {
        self.name.as_str()
    }

    pub fn is_name(&self, name: &str) -> (r: bool)
        ensures
            r == (self@.name == name@),
    {
        str_eq(self.name.as_str(), name)
    }

    pub fn same_nominal(&self, other: &NominalType) -> (r: bool)
        ensures
            r == nominals_same(self@, other@),
    {
        self.id == other.id && (self.id >= 0 || self.name == other.name) && same_subst(
            &self.substitution,
            &other.substitution,
        )
    }

    pub fn is_result_type(&self) -> (r: bool)
        ensures
            r == (self@.name == "Result"@),
    {
        self.is_name(RESULT_TYPE_NAME)
    }

    /// The success and error payload types of a `Result` reference.
    pub fn result_payloads(&self) -> (r: Option<(&Type, &Type)>)
        ensures
            opt_pair(r) == nominal_payloads(self@),
            r matches Some(p) ==> decreases_to!(*self => *p.0) && decreases_to!(*self => *p.1),
    {
        if !self.is_result_type() {
            return None;
        }
        match (
            self.substitution.get(RESULT_OK_VALUE),
            self.substitution.get(RESULT_ERR_ERROR),
        ) {
            (Some(ok), Some(err)) => Some((ok, err)),
            _ => None,
        }
    }

    /// The reference as a diagnostic shows it.
    pub fn to_string(&self) -> (r: String)
        ensures
            r@ == display_nominal(self@),
    {
        nominal_string(self)
    }
}

/// `same_nominal` is an equivalence, and nominal references with equal models are
/// the same type.
pub proof fn same_nominal_equivalence(a: NominalV, b: NominalV, c: NominalV)
    ensures
        nominals_same(a, a),
        nominals_same(a, b) == nominals_same(b, a),
        nominals_same(a, b) && nominals_same(b, c) ==> nominals_same(a, c),
        a == b ==> nominals_same(a, b),
{
}

impl NominalInfo {
    pub fn record(id: i32) -> (r: NominalInfo)
        ensures
            r == (NominalInfo { id, kind: NominalKind::Record }),
    {
        NominalInfo { id, kind: NominalKind::Record }
    }

    pub fn sum(id: i32) -> (r: NominalInfo)
        ensures
            r == (NominalInfo { id, kind: NominalKind::Sum }),
    {
        NominalInfo { id, kind: NominalKind::Sum }
    }
}

// ---- display ----

/// A type as a diagnostic shows it.
pub open spec fn display(t: TypeV) -> Seq<char>
    decreases t,
{
    match t {
        TypeV::Bool => "bool"@,
        TypeV::Int(k) => int_name(k),
        TypeV::Float(k) => float_name(k),
        TypeV::Str => "string"@,
        TypeV::Void => "void"@,
        TypeV::Never => "never"@,
        TypeV::Record(n) => display_nominal(n),
        TypeV::Sum(n) => display_nominal(n),
        TypeV::Array(t, n) => display(*t) + "["@ + dec(n as nat) + "]"@,
        TypeV::Slice(t) => display(*t) + "[]"@,
        TypeV::Tuple(ts) => "["@ + join(display_all(ts), ", "@) + "]"@,
        TypeV::Fun(ps, r) => "("@ + join(display_all(ps), ", "@) + ") -> "@ + display(*r),
        TypeV::Nullable(t) => display(*t) + "?"@,
        TypeV::ConstOf(t) => "const "@ + display(*t),
        TypeV::Mut(t) => "mut("@ + display(*t) + ")"@,
        TypeV::Ref(t) => "ref("@ + display(*t) + ")"@,
        TypeV::Unknown(_) => "?"@,
        TypeV::SelfType => "Self"@,
    }
}

/// Each type as a diagnostic shows it.
pub open spec fn display_all(ts: Seq<TypeV>) -> Seq<Seq<char>>
    decreases ts,
{
    Seq::new(ts.len(), |i: int| if 0 <= i < ts.len() { display(ts[i]) } else { arbitrary() })
}

/// Each entry of a substitution as `key`, `sep`, type.
pub open spec fn display_entries(s: Seq<(Seq<char>, TypeV)>, sep: Seq<char>) -> Seq<Seq<char>>
    decreases s,
{
    Seq::new(
        s.len(),
        |i: int|
            if 0 <= i < s.len() {
                s[i].0 + sep + display(s[i].1)
            } else {
                arbitrary()
            },
    )
}

/// A nominal reference as a diagnostic shows it: a `Result` by its payloads, a
/// structural record by its fields, anything else by name and substitution.
pub open spec fn display_nominal(n: NominalV) -> Seq<char>
    decreases n,
{
    let ok = first_pos(keys_of(n.subst), "Ok.value"@);
    let err = first_pos(keys_of(n.subst), "Err.error"@);
    if n.name == "Result"@ && 0 <= ok < n.subst.len() && 0 <= err < n.subst.len() {
        "Result<"@ + display(n.subst[ok].1) + ", "@ + display(n.subst[err].1) + ">"@
    } else if n.name == "<structural>"@ {
        "anonymous { "@ + join(display_entries(n.subst, ": "@), ", "@) + " }"@
    } else if n.subst.len() == 0 {
        n.name
    } else {
        n.name + "<"@ + join(display_entries(n.subst, "="@), ", "@) + ">"@
    }
}

fn type_string(t: &Type) -> (r: String)
    ensures
        r@ == display(t@),
    decreases *t,
{
    match t {
        Type::Bool => "bool".to_owned(),
        Type::Int(k) => k.name().to_owned(),
        Type::Float(k) => k.name().to_owned(),
        Type::Str => "string".to_owned(),
        Type::Void => "void".to_owned(),
        Type::Never => "never".to_owned(),
        Type::Record(n) => nominal_string(n),
        Type::Sum(n) => nominal_string(n),
        Type::Array(e, n) => {
            let mut out = type_string(e);
            out.push_str("[");
            out.push_str(dec_string(*n as u64).as_str());
            out.push_str("]");
            out
        },
        Type::Slice(e) => {
            let mut out = type_string(e);
            out.push_str("[]");
            out
        },
        Type::Tuple(ts) => {
            let mut out = "[".to_owned();
            out.push_str(join_strings(type_strings(ts).as_slice(), ", ").as_str());
            out.push_str("]");
            out
        },
        Type::Fun(ps, ret) => {
            let mut out = "(".to_owned();
            out.push_str(join_strings(type_strings(ps).as_slice(), ", ").as_str());
            out.push_str(") -> ");
            out.push_str(type_string(ret).as_str());
            out
        },
        Type::Nullable(e) => {
            let mut out = type_string(e);
            out.push_str("?");
            out
        },
        Type::ConstOf(e) => {
            let mut out = "const ".to_owned();
            out.push_str(type_string(e).as_str());
            out
        },
        Type::Mut(e) => {
            let mut out = "mut(".to_owned();
            out.push_str(type_string(e).as_str());
            out.push_str(")");
            out
        },
        Type::Ref(e) => {
            let mut out = "ref(".to_owned();
            out.push_str(type_string(e).as_str());
            out.push_str(")");
            out
        },
        Type::Unknown(_) => "?".to_owned(),
        Type::SelfType => "Self".to_owned(),
    }
}

fn type_strings(ts: &Vec<Type>) -> (r: Vec<String>)
    ensures
        texts(r@) == display_all(types_view(ts@)),
    decreases *ts,
{
    let mut out: Vec<String> = Vec::new();
    for i in 0..ts.len()
        invariant
            out.len() == i,
            forall|j: int| 0 <= j < i ==> (#[trigger] out[j])@ == display(ts[j]@),
    {
        out.push(type_string(&ts[i]));
    }
    assert(texts(out@) =~= display_all(types_view(ts@)));
    out
}

fn nominal_string(n: &NominalType) -> (r: String)
    ensures
        r@ == display_nominal(n@),
    decreases *n,
{
    proof {
        first_pos_facts(keys_of(n@.subst), "Ok.value"@);
        first_pos_facts(keys_of(n@.subst), "Err.error"@);
    }
    if let Some((ok, err)) = n.result_payloads() {
        let mut out = "Result<".to_owned();
        out.push_str(type_string(ok).as_str());
        out.push_str(", ");
        out.push_str(type_string(err).as_str());
        out.push_str(">");
        return out;
    }
    if str_eq(n.name.as_str(), STRUCTURAL_RECORD_NAME) {
        let mut out = "anonymous { ".to_owned();
        out.push_str(
            join_strings(entry_strings(&n.substitution, ": ").as_slice(), ", ").as_str(),
        );
        out.push_str(" }");
        return out;
    }
    if n.substitution.is_empty() {
        return n.name.clone();
    }
    let mut out = n.name.clone();
    out.push_str("<");
    out.push_str(join_strings(entry_strings(&n.substitution, "=").as_slice(), ", ").as_str());
    out.push_str(">");
    out
}

fn entry_strings(s: &Substitution, sep: &str) -> (r: Vec<String>)
    ensures
        texts(r@) == display_entries(s@, sep@),
    decreases *s,
{
    let mut out: Vec<String> = Vec::new();
    for i in 0..s.entries.len()
        invariant
            out.len() == i,
            forall|j: int|
                0 <= j < i ==> (#[trigger] out[j])@ == s@[j].0 + sep@ + display(s@[j].1),
    {
        let mut e = s.entries[i].0.clone();
        e.push_str(sep);
        e.push_str(type_string(&s.entries[i].1).as_str());
        out.push(e);
    }
    assert(texts(out@) =~= display_entries(s@, sep@));
    out
}

// ---- types ----

/// The model of `Result<ok, err>`.
pub open spec fn result_view(ok: TypeV, err: TypeV) -> TypeV {
    TypeV::Sum(
        NominalV {
            id: RESULT_TYPE_ID,
            name: "Result"@,
            subst: put_sorted(
                put_sorted(Seq::<(Seq<char>, TypeV)>::empty(), "Ok.value"@, ok),
                "Err.error"@,
                err,
            ),
        },
    )
}

/// The dispatch class of a primitive or array receiver.
pub open spec fn class_of(t: TypeV) -> Option<Seq<char>> {
    match t {
        TypeV::Bool => Some("bool"@),
        TypeV::Str => Some("string"@),
        TypeV::Int(k) => Some(int_name(k)),
        TypeV::Float(k) => Some(float_name(k)),
        TypeV::Array(_, _) => Some("array"@),
        TypeV::Slice(_) => Some("array"@),
        _ => None,
    }
}

/// The dispatch class of a receiver type word.
pub open spec fn class_of_name(name: Seq<char>, array: bool) -> Option<Seq<char>> {
    if array {
        Some("array"@)
    } else if int_of_name(name) is Some || name == "bool"@ || name == "float32"@ || name
        == "float64"@ || name == "string"@ {
        Some(name)
    } else {
        None
    }
}

/// The text of an optional static string.
pub open spec fn opt_str(o: Option<&'static str>) -> Option<Seq<char>> {
    match o {
        Some(s) => Some(s@),
        None => None,
    }
}

impl Type {
    /// The type `Result<ok, err>`.
    pub fn result(ok: Type, err: Type) -> (r: Type)
        ensures
            r@ == result_view(ok@, err@),
    {
        let mut substitution = Substitution::empty();
        substitution.insert(RESULT_OK_VALUE, ok);
        substitution.insert(RESULT_ERR_ERROR, err);
        Type::Sum(
            NominalType::with_substitution(RESULT_TYPE_ID, RESULT_TYPE_NAME, substitution),
        )
    }

    /// The type of a bare `null`.
    pub fn null() -> (r: Type)
        ensures
            r@ == TypeV::Nullable(Box::new(TypeV::Never)),
    {
        proof {
            reveal_with_fuel(type_view, 2);
        }
        Type::Nullable(Box::new(Type::Never))
    }

    pub fn is_unknown(&self) -> (r: bool)
        ensures
            r == (self@ is Unknown),
    {
        matches!(self, Type::Unknown(_))
    }

    /// The dispatch class for a primitive/array receiver, used to route a
    /// `recv.m()` call to a stdlib method implemented with `fun T.m(...)`.
    pub fn primitive_class(&self) -> (r: Option<&'static str>)
        ensures
            opt_str(r) == class_of(self@),
    {
        match self {
            Type::Bool => Some("bool"),
            Type::Str => Some("string"),
            Type::Int(k) => Some(k.name()),
            Type::Float(k) => Some(k.name()),
            Type::Array(_, _) => Some("array"),
            Type::Slice(_) => Some("array"),
            _ => None,
        }
    }

    /// The dispatch class for a `fun T.m(...)` receiver type word: a primitive
    /// scalar (`"string"`, `"int32"`, ...) or `"array"` for an array receiver.
    pub fn primitive_class_of_name(name: &str, array: bool) -> (r: Option<&'static str>)
        ensures
            opt_str(r) == class_of_name(name@, array),
    {
        if array {
            return Some("array");
        }
        if let Some(k) = IntKind::from_name(name) {
            return Some(k.name());
        }
        if str_eq(name, "bool") {
            Some("bool")
        } else if str_eq(name, "float32") {
            Some("float32")
        } else if str_eq(name, "float64") {
            Some("float64")
        } else if str_eq(name, "string") {
            Some("string")
        } else {
            None
        }
    }

    pub fn is_null(&self) -> (r: bool)
        ensures
            r == (self@ == TypeV::Nullable(Box::new(TypeV::Never))),
    {
        proof {
            reveal_with_fuel(type_view, 2);
        }
        match self {
            Type::Nullable(inner) => matches!(**inner, Type::Never),
            _ => false,
        }
    }

    pub fn is_result_type(&self) -> (r: bool)
        ensures
            r == (self@ is Sum && self@->Sum_0.name == "Result"@),
    {
        match self {
            Type::Sum(n) => n.is_result_type(),
            _ => false,
        }
    }

    /// The compile-time truthiness of a condition value of this (resolved) type,
    /// when it is fixed by the type alone. A `bool` or a non-trivial nullable
    /// depends on the runtime value. A bare `null` is always false; any other
    /// non-nullable value is always true.
    pub fn static_truthiness(&self) -> (r: Option<bool>)
        ensures
            r == (match self@ {
                TypeV::Bool => None,
                TypeV::Unknown(_) => None,
                TypeV::Never => None,
                TypeV::Nullable(inner) => if *inner is Never {
                    Some(false)
                } else {
                    None
                },
                _ => Some(true),
            }),
    {
        proof {
            reveal_with_fuel(type_view, 2);
        }
        match self {
            Type::Bool | Type::Unknown(_) | Type::Never => None,
            Type::Nullable(inner) => if matches!(**inner, Type::Never) {
                Some(false)
            } else {
                None
            },
            _ => Some(true),
        }
    }

    /// The payload types of a `Result`.
    pub fn result_payloads(&self) -> (r: Option<(&Type, &Type)>)
        ensures
            opt_pair(r) == (match self@ {
                TypeV::Sum(n) => nominal_payloads(n),
                _ => None,
            }),
    {
        match self {
            Type::Sum(n) => n.result_payloads(),
            _ => None,
        }
    }

    /// The type as a diagnostic shows it.
    pub fn display(&self) -> (r: String)
        ensures
            r@ == display(self@),
    {
        type_string(self)
    }
}

/// The payloads of `Result<ok, err>` are `ok` and `err`.
pub proof fn result_payloads_of_result(ok: TypeV, err: TypeV)
    ensures
        nominal_payloads(result_view(ok, err)->Sum_0) == Some((ok, err)),
        display(result_view(ok, err)) == "Result<"@ + display(ok) + ", "@ + display(err) + ">"@,
{
    let empty = Seq::<(Seq<char>, TypeV)>::empty();
    let one = put_sorted(empty, "Ok.value"@, ok);
    let two = put_sorted(one, "Err.error"@, err);
    reveal_strlit("Ok.value");
    reveal_strlit("Err.error");
    put_sorted_sorted(empty, "Ok.value"@, ok);
    assert("Ok.value"@[0] == 'O' && "Err.error"@[0] == 'E');
    crate::table::put_sorted_lookup(one, "Err.error"@, err, "Ok.value"@);
    crate::table::put_sorted_lookup(one, "Err.error"@, err, "Err.error"@);
    crate::table::put_sorted_lookup(empty, "Ok.value"@, ok, "Ok.value"@);
    first_pos_facts(keys_of(two), "Ok.value"@);
    first_pos_facts(keys_of(two), "Err.error"@);
    reveal_with_fuel(display, 2);
    reveal_with_fuel(display_nominal, 2);
}


/// The model of a structural record with the given fields; a later field of the
/// same name wins.
pub open spec fn structural_subst(fields: Seq<(Seq<char>, TypeV)>) -> Seq<(Seq<char>, TypeV)>
    decreases fields.len(),
{
    if fields.len() == 0 {
        Seq::empty()
    } else {
        put_sorted(structural_subst(fields.drop_last()), fields.last().0, fields.last().1)
    }
}

/// The model of a structural record.
pub open spec fn structural_view(fields: Seq<(Seq<char>, TypeV)>) -> TypeV {
    TypeV::Record(
        NominalV {
            id: STRUCTURAL_RECORD_ID,
            name: "<structural>"@,
            subst: structural_subst(fields),
        },
    )
}

/// The models of named types.
pub open spec fn named_types_view(fs: Seq<(String, Type)>) -> Seq<(Seq<char>, TypeV)> {
    Seq::new(fs.len(), |i: int| (fs[i].0@, fs[i].1@))
}

/// Build a structural `Type::Record` from named field types. Field order is
/// irrelevant: the substitution is keyed by name and kept in name order.
pub fn structural_record(fields: Vec<(String, Type)>) -> (r: Type)
    ensures
        r@ == structural_view(named_types_view(fields@)),
{
    let mut subst = Substitution::empty();
    for i in 0..fields.len()
        invariant
            subst@ == structural_subst(named_types_view(fields@).take(i as int)),
    {
        subst.insert(fields[i].0.as_str(), clone_type(&fields[i].1));
        assert(named_types_view(fields@).take(i + 1).drop_last() =~= named_types_view(
            fields@,
        ).take(i as int));
    }
    assert(named_types_view(fields@).take(fields.len() as int) =~= named_types_view(fields@));
    Type::Record(
        NominalType::with_substitution(STRUCTURAL_RECORD_ID, STRUCTURAL_RECORD_NAME, subst),
    )
}

// ---- resolution of annotations ----

/// What a type word denotes, given the nominal types in scope.
pub open spec fn resolved_name(
    name: Seq<char>,
    info: spec_fn(Seq<char>) -> Option<NominalInfo>,
) -> Result<TypeV, Seq<char>> {
    if int_of_name(name) is Some {
        Ok(TypeV::Int(int_of_name(name)->0))
    } else if name == "bool"@ {
        Ok(TypeV::Bool)
    } else if name == "float32"@ {
        Ok(TypeV::Float(FloatKind::F32))
    } else if name == "float64"@ {
        Ok(TypeV::Float(FloatKind::F64))
    } else if name == "string"@ {
        Ok(TypeV::Str)
    } else if name == "void"@ {
        Ok(TypeV::Void)
    } else if name == "Self"@ {
        Ok(TypeV::SelfType)
    } else if name == "infer"@ {
        Ok(TypeV::Unknown(INFER_VAR))
    } else {
        match info(name) {
            Some(i) => {
                let n = NominalV { id: i.id, name, subst: Seq::empty() };
                if i.kind is Record {
                    Ok(TypeV::Record(n))
                } else {
                    Ok(TypeV::Sum(n))
                }
            },
            None => Err("unknown type `"@ + name + "`"@),
        }
    }
}

/// The type a syntactic annotation denotes, or the first error in it.
pub open spec fn resolved(
    e: TypeExprV,
    info: spec_fn(Seq<char>) -> Option<NominalInfo>,
) -> Result<TypeV, Seq<char>>
    decreases e,
{
    match e {
        TypeExprV::Named(name, _) => resolved_name(name, info),
        TypeExprV::Array(inner, n, _) => match resolved(*inner, info) {
            Ok(t) => Ok(
                match n {
                    Some(n) => TypeV::Array(Box::new(t), n),
                    None => TypeV::Slice(Box::new(t)),
                },
            ),
            Err(m) => Err(m),
        },
        TypeExprV::Fun(params, ret, _) => match resolved_all(params, info) {
            Ok(ps) => match resolved(*ret, info) {
                Ok(r) => Ok(TypeV::Fun(ps, Box::new(r))),
                Err(m) => Err(m),
            },
            Err(m) => Err(m),
        },
        TypeExprV::Nullable(inner, _) => match resolved(*inner, info) {
            Ok(t) => Ok(TypeV::Nullable(Box::new(t))),
            Err(m) => Err(m),
        },
        TypeExprV::Fallible(inner, _) => match resolved(*inner, info) {
            Ok(t) => Ok(result_view(t, TypeV::Unknown(INFER_VAR))),
            Err(m) => Err(m),
        },
        TypeExprV::Tuple(elems, _) => match resolved_all(elems, info) {
            Ok(ts) => Ok(TypeV::Tuple(ts)),
            Err(m) => Err(m),
        },
        TypeExprV::Anonymous(fields, _) => match resolved_fields(fields, info) {
            Ok(fs) => Ok(structural_view(fs)),
            Err(m) => Err(m),
        },
        TypeExprV::Mut(inner, _) => match resolved(*inner, info) {
            Ok(t) => Ok(TypeV::Mut(Box::new(t))),
            Err(m) => Err(m),
        },
        TypeExprV::Ref(inner, _) => match resolved(*inner, info) {
            Ok(t) => Ok(TypeV::Ref(Box::new(t))),
            Err(m) => Err(m),
        },
        // `typeof`, slots, `Self.f` and refinements need their declaration.
        _ => Err("unsupported type"@),
    }
}

/// The types a list of annotations denotes, or the first error in it.
pub open spec fn resolved_all(
    es: Seq<TypeExprV>,
    info: spec_fn(Seq<char>) -> Option<NominalInfo>,
) -> Result<Seq<TypeV>, Seq<char>>
    decreases es,
{
    if es.len() == 0 {
        Ok(Seq::empty())
    } else {
        match resolved_all(es.drop_last(), info) {
            Ok(ts) => match resolved(es.last(), info) {
                Ok(t) => Ok(ts.push(t)),
                Err(m) => Err(m),
            },
            Err(m) => Err(m),
        }
    }
}

/// The types a list of named annotations denotes, or the first error in it.
pub open spec fn resolved_fields(
    fs: Seq<(Seq<char>, TypeExprV)>,
    info: spec_fn(Seq<char>) -> Option<NominalInfo>,
) -> Result<Seq<(Seq<char>, TypeV)>, Seq<char>>
    decreases fs,
{
    if fs.len() == 0 {
        Ok(Seq::empty())
    } else {
        match resolved_fields(fs.drop_last(), info) {
            Ok(ts) => match resolved(fs.last().1, info) {
                Ok(t) => Ok(ts.push((fs.last().0, t))),
                Err(m) => Err(m),
            },
            Err(m) => Err(m),
        }
    }
}

/// Whether the callback `f` computes `info`.
pub open spec fn answers<F: Fn(&str) -> Option<NominalInfo>>(
    f: F,
    info: spec_fn(Seq<char>) -> Option<NominalInfo>,
) -> bool {
    forall|n: &str, r: Option<NominalInfo>|
        #[trigger] call_ensures(f, (n,), r) ==> r == info(n@)
}

/// The model of a resolution result.
pub open spec fn resolution(r: Result<Type, String>) -> Result<TypeV, Seq<char>> {
    match r {
        Ok(t) => Ok(t@),
        Err(m) => Err(m@),
    }
}

/// Resolve a syntactic type expression to a `Type`.
///
/// The `nominal_info` callback returns the HIR id and kind for a user-defined
/// type name, allowing record and sum annotations to resolve to distinct
/// nominal references.
pub fn resolve<F: Fn(&str) -> Option<NominalInfo>>(
    expr: &TypeExpr,
    nominal_info: F,
) -> (r: Result<Type, String>)
    requires
        forall|n: &str| call_requires(nominal_info, (n,)),
    ensures
        forall|info: spec_fn(Seq<char>) -> Option<NominalInfo>|
            #[trigger] answers(nominal_info, info) ==> resolution(r) == resolved(expr@, info),
{
    resolve_inner(expr, &nominal_info)
}

fn resolve_inner<F: Fn(&str) -> Option<NominalInfo>>(
    expr: &TypeExpr,
    nominal_info: &F,
) -> (r: Result<Type, String>)
    requires
        forall|n: &str| call_requires(*nominal_info, (n,)),
    ensures
        forall|info: spec_fn(Seq<char>) -> Option<NominalInfo>|
            #[trigger] answers(*nominal_info, info) ==> resolution(r) == resolved(expr@, info),
    decreases *expr,
{
    match expr {
        TypeExpr::Named(name, _) => resolve_named(name.as_str(), nominal_info),
        TypeExpr::Array(inner, n, _) => match resolve_inner(inner, nominal_info) {
            Ok(t) => match n {
                Some(n) => Ok(Type::Array(Box::new(t), *n)),
                None => Ok(Type::Slice(Box::new(t))),
            },
            Err(m) => Err(m),
        },
        TypeExpr::Fun(params, ret, _) => match resolve_list(params, nominal_info) {
            Ok(ps) => match resolve_inner(ret, nominal_info) {
                Ok(t) => Ok(Type::Fun(ps, Box::new(t))),
                Err(m) => Err(m),
            },
            Err(m) => Err(m),
        },
        TypeExpr::Nullable(inner, _) => match resolve_inner(inner, nominal_info) {
            Ok(t) => Ok(Type::Nullable(Box::new(t))),
            Err(m) => Err(m),
        },
        // `T!` is the built-in fallible Result: success payload `T`, error payload
        // left open (an `infer` placeholder the caller freshens).
        TypeExpr::Fallible(inner, _) => match resolve_inner(inner, nominal_info) {
            Ok(t) => {
                proof {
                    reveal_with_fuel(type_view, 2);
                }
                Ok(Type::result(t, Type::Unknown(INFER_VAR)))
            },
            Err(m) => Err(m),
        },
        TypeExpr::Tuple(elems, _) => match resolve_list(elems, nominal_info) {
            Ok(ts) => Ok(Type::Tuple(ts)),
            Err(m) => Err(m),
        },
        TypeExpr::Anonymous(fields, _) => match resolve_named_list(fields, nominal_info) {
            Ok(fs) => Ok(structural_record(fs)),
            Err(m) => Err(m),
        },
        TypeExpr::Mut(inner, _) => match resolve_inner(inner, nominal_info) {
            Ok(t) => Ok(Type::Mut(Box::new(t))),
            Err(m) => Err(m),
        },
        TypeExpr::Ref(inner, _) => match resolve_inner(inner, nominal_info) {
            Ok(t) => Ok(Type::Ref(Box::new(t))),
            Err(m) => Err(m),
        },
        _ => Err("unsupported type".to_owned()),
    }
}

fn resolve_list<F: Fn(&str) -> Option<NominalInfo>>(
    es: &Vec<TypeExpr>,
    nominal_info: &F,
) -> (r: Result<Vec<Type>, String>)
    requires
        forall|n: &str| call_requires(*nominal_info, (n,)),
    ensures
        forall|info: spec_fn(Seq<char>) -> Option<NominalInfo>|
            #[trigger] answers(*nominal_info, info) ==> (match r {
                Ok(ts) => Ok(types_view(ts@)),
                Err(m) => Err(m@),
            }) == resolved_all(type_exprs_view(es@), info),
    decreases *es,
{
    let mut out: Vec<Type> = Vec::new();
    let ghost all = type_exprs_view(es@);
    proof {
        assert(all.take(0) =~= Seq::empty());
        assert(types_view(out@) =~= Seq::empty());
    }
    for i in 0..es.len()
        invariant
            forall|n: &str| call_requires(*nominal_info, (n,)),
            all == type_exprs_view(es@),
            forall|info: spec_fn(Seq<char>) -> Option<NominalInfo>|
                #[trigger] answers(*nominal_info, info) ==> resolved_all(all.take(i as int), info)
                    == Ok::<Seq<TypeV>, Seq<char>>(types_view(out@)),
    {
        let ghost before = types_view(out@);
        let t = resolve_inner(&es[i], nominal_info);
        proof {
            assert(all.take(i + 1).drop_last() =~= all.take(i as int));
            assert(all.take(i + 1).last() == es[i as int]@);
        }
        match t {
            Ok(t) => {
                out.push(t);
                assert(types_view(out@) =~= before.push(t@));
            },
            Err(m) => {
                proof {
                    assert forall|info: spec_fn(Seq<char>) -> Option<NominalInfo>| #[trigger] answers(*nominal_info, info) implies resolved_all(all, info) == Err::<Seq<TypeV>, Seq<char>>(
                        m@,
                    ) by {
                        resolved_all_stops(all, info, i + 1);
                    }
                }
                return Err(m);
            },
        }
    }
    assert(all.take(es.len() as int) =~= all);
    Ok(out)
}

fn resolve_named_list<F: Fn(&str) -> Option<NominalInfo>>(
    fs: &Vec<(String, TypeExpr)>,
    nominal_info: &F,
) -> (r: Result<Vec<(String, Type)>, String>)
    requires
        forall|n: &str| call_requires(*nominal_info, (n,)),
    ensures
        forall|info: spec_fn(Seq<char>) -> Option<NominalInfo>|
            #[trigger] answers(*nominal_info, info) ==> (match r {
                Ok(ts) => Ok(named_types_view(ts@)),
                Err(m) => Err(m@),
            }) == resolved_fields(named_type_exprs_view(fs@), info),
    decreases *fs,
{
    let mut out: Vec<(String, Type)> = Vec::new();
    let ghost all = named_type_exprs_view(fs@);
    proof {
        assert(all.take(0) =~= Seq::empty());
        assert(named_types_view(out@) =~= Seq::empty());
    }
    for i in 0..fs.len()
        invariant
            forall|n: &str| call_requires(*nominal_info, (n,)),
            all == named_type_exprs_view(fs@),
            forall|info: spec_fn(Seq<char>) -> Option<NominalInfo>|
                #[trigger] answers(*nominal_info, info) ==> resolved_fields(
                    all.take(i as int),
                    info,
                ) == Ok::<Seq<(Seq<char>, TypeV)>, Seq<char>>(named_types_view(out@)),
    {
        let ghost before = named_types_view(out@);
        let t = resolve_inner(&fs[i].1, nominal_info);
        proof {
            assert(all.take(i + 1).drop_last() =~= all.take(i as int));
            assert(all.take(i + 1).last() == (fs[i as int].0@, fs[i as int].1@));
        }
        match t {
            Ok(t) => {
                out.push((fs[i].0.clone(), t));
                assert(named_types_view(out@) =~= before.push((fs[i as int].0@, t@)));
            },
            Err(m) => {
                proof {
                    assert forall|info: spec_fn(Seq<char>) -> Option<NominalInfo>| #[trigger] answers(*nominal_info, info) implies resolved_fields(all, info) == Err::<
                        Seq<(Seq<char>, TypeV)>,
                        Seq<char>,
                    >(m@) by {
                        resolved_fields_stops(all, info, i + 1);
                    }
                }
                return Err(m);
            },
        }
    }
    assert(all.take(fs.len() as int) =~= all);
    Ok(out)
}

proof fn resolved_all_stops(
    es: Seq<TypeExprV>,
    info: spec_fn(Seq<char>) -> Option<NominalInfo>,
    n: int,
)
    requires
        0 <= n <= es.len(),
        resolved_all(es.take(n), info) is Err,
    ensures
        resolved_all(es, info) == resolved_all(es.take(n), info),
    decreases es.len(),
{
    if n == es.len() {
        assert(es.take(n) =~= es);
    } else {
        assert(es.drop_last().take(n) =~= es.take(n));
        resolved_all_stops(es.drop_last(), info, n);
    }
}

proof fn resolved_fields_stops(
    fs: Seq<(Seq<char>, TypeExprV)>,
    info: spec_fn(Seq<char>) -> Option<NominalInfo>,
    n: int,
)
    requires
        0 <= n <= fs.len(),
        resolved_fields(fs.take(n), info) is Err,
    ensures
        resolved_fields(fs, info) == resolved_fields(fs.take(n), info),
    decreases fs.len(),
{
    if n == fs.len() {
        assert(fs.take(n) =~= fs);
    } else {
        assert(fs.drop_last().take(n) =~= fs.take(n));
        resolved_fields_stops(fs.drop_last(), info, n);
    }
}

fn resolve_named<F: Fn(&str) -> Option<NominalInfo>>(
    name: &str,
    nominal_info: &F,
) -> (r: Result<Type, String>)
    requires
        forall|n: &str| call_requires(*nominal_info, (n,)),
    ensures
        forall|info: spec_fn(Seq<char>) -> Option<NominalInfo>|
            #[trigger] answers(*nominal_info, info) ==> resolution(r) == resolved_name(name@, info),
{
    if let Some(k) = IntKind::from_name(name) {
        return Ok(Type::Int(k));
    }
    if str_eq(name, "bool") {
        Ok(Type::Bool)
    } else if str_eq(name, "float32") {
        Ok(Type::Float(FloatKind::F32))
    } else if str_eq(name, "float64") {
        Ok(Type::Float(FloatKind::F64))
    } else if str_eq(name, "string") {
        Ok(Type::Str)
    } else if str_eq(name, "void") {
        Ok(Type::Void)
    } else if str_eq(name, "Self") {
        Ok(Type::SelfType)
    } else if str_eq(name, "infer") {
        // Lowers to an unknown so ordinary inference fills it in; the placeholder
        // id is freshened per occurrence by `freshen_infer`.
        Ok(Type::Unknown(INFER_VAR))
    } else {
        match nominal_info(name) {
            Some(info) => match info.kind {
                NominalKind::Record => Ok(Type::Record(NominalType::new(info.id, name))),
                NominalKind::Sum => Ok(Type::Sum(NominalType::new(info.id, name))),
            },
            None => {
                let mut m = "unknown type `".to_owned();
                m.push_str(name);
                m.push_str("`");
                Err(m)
            },
        }
    }
}

// ---- queries ----

/// The storage symbol for a stdlib method implemented on a primitive/array
/// receiver (`fun T.m`): the method name qualified by its dispatch `class`, so it
/// never clashes with a free function or another class's method.
pub fn prim_method_symbol(class: &str, method: &str) -> (r: String)
    ensures
        r@ == method@ + "@prim."@ + class@,
{
    let mut out = method.to_owned();
    out.push_str("@prim.");
    out.push_str(class);
    out
}

/// The default kind of an unconstrained integer literal: int32 when the value
/// fits, otherwise int64.
pub fn int_literal_kind(value: i64) -> (r: IntKind)
    ensures
        r == (if i32::MIN <= value <= i32::MAX {
            IntKind::I32
        } else {
            IntKind::I64
        }),
{
    if -0x8000_0000 <= value && value <= 0x7fff_ffff {
        IntKind::I32
    } else {
        IntKind::I64
    }
}

/// The type yielded by indexing into `ty`.
pub open spec fn element_of(ty: TypeV) -> Option<TypeV>
    decreases ty,
{
    match ty {
        TypeV::Slice(e) => Some(*e),
        TypeV::Array(e, _) => Some(*e),
        TypeV::Ref(inner) => match element_of(*inner) {
            Some(e) => Some(TypeV::Ref(Box::new(e))),
            None => None,
        },
        TypeV::Mut(inner) => match element_of(*inner) {
            Some(e) => Some(TypeV::Mut(Box::new(e))),
            None => None,
        },
        TypeV::ConstOf(inner) => match element_of(*inner) {
            Some(e) => Some(TypeV::ConstOf(Box::new(e))),
            None => None,
        },
        _ => None,
    }
}

/// The type yielded by indexing into `ty`. Reference and mutability wrappers are
/// seen through and re-applied to the element, so `ref(T[])[i]` is `ref(T)`.
/// `None` when `ty` is not an array/slice (possibly under such wrappers).
pub fn index_element(ty: &Type) -> (r: Option<Type>)
    ensures
        opt_type(r) == element_of(ty@),
    decreases *ty,
{
    match ty {
        Type::Slice(e) => Some(clone_type(e)),
        Type::Array(e, _) => Some(clone_type(e)),
        Type::Ref(inner) => match index_element(inner) {
            Some(e) => Some(Type::Ref(Box::new(e))),
            None => None,
        },
        Type::Mut(inner) => match index_element(inner) {
            Some(e) => Some(Type::Mut(Box::new(e))),
            None => None,
        },
        Type::ConstOf(inner) => match index_element(inner) {
            Some(e) => Some(Type::ConstOf(Box::new(e))),
            None => None,
        },
        _ => None,
    }
}

/// Indexing sees through the mode wrappers: what lies behind them on the element
/// is the element of what lies behind them on the array.
pub proof fn element_behind_modes(ty: TypeV)
    ensures
        element_of(ty) is Some <==> peeled(ty) is Slice || peeled(ty) is Array,
        peeled(ty) matches TypeV::Slice(e) ==> peeled(element_of(ty)->0) == peeled(*e),
        peeled(ty) matches TypeV::Array(e, _) ==> peeled(element_of(ty)->0) == peeled(*e),
    decreases ty,
{
    match ty {
        TypeV::Ref(inner) => {
            element_behind_modes(*inner);
        },
        TypeV::Mut(inner) => {
            element_behind_modes(*inner);
        },
        TypeV::ConstOf(inner) => {
            element_behind_modes(*inner);
        },
        _ => {},
    }
}

/// The primitive value kinds that no coercion bridges.
pub open spec fn value_kind(t: TypeV) -> Option<int> {
    match t {
        TypeV::Str => Some(0),
        TypeV::Bool => Some(1),
        TypeV::Int(_) => Some(2),
        TypeV::Float(_) => Some(3),
        _ => None,
    }
}

/// Whether two types belong to clearly different primitive value kinds (string
/// vs int, bool vs float, ...) that no coercion bridges.
pub fn primitive_kind_conflict(a: &Type, b: &Type) -> (r: bool)
    ensures
        r == (value_kind(a@) is Some && value_kind(b@) is Some && value_kind(a@) != value_kind(
            b@,
        )),
{
    let ka = kind_number(a);
    let kb = kind_number(b);
    ka != 4 && kb != 4 && ka != kb
}

fn kind_number(t: &Type) -> (r: u8)
    ensures
        r <= 4,
        value_kind(t@) == (if r == 4 {
            None::<int>
        } else {
            Some(r as int)
        }),
{
    match t {
        Type::Str => 0,
        Type::Bool => 1,
        Type::Int(_) => 2,
        Type::Float(_) => 3,
        _ => 4,
    }
}

/// The inference variables occurring anywhere in a type.
pub open spec fn vars(t: TypeV) -> Set<u32>
    decreases t,
{
    match t {
        TypeV::Unknown(id) => set![id],
        TypeV::Array(t, _) => vars(*t),
        TypeV::Slice(t) => vars(*t),
        TypeV::Nullable(t) => vars(*t),
        TypeV::ConstOf(t) => vars(*t),
        TypeV::Mut(t) => vars(*t),
        TypeV::Ref(t) => vars(*t),
        TypeV::Fun(ps, r) => vars_all(ps).union(vars(*r)),
        TypeV::Tuple(ts) => vars_all(ts),
        TypeV::Record(n) => vars_subst(n.subst),
        TypeV::Sum(n) => vars_subst(n.subst),
        _ => Set::empty(),
    }
}

/// The inference variables occurring in any of the types.
pub open spec fn vars_all(ts: Seq<TypeV>) -> Set<u32>
    decreases ts,
{
    if ts.len() == 0 {
        Set::empty()
    } else {
        vars_all(ts.drop_last()).union(vars(ts.last()))
    }
}

/// The inference variables occurring in any entry.
pub open spec fn vars_subst(s: Seq<(Seq<char>, TypeV)>) -> Set<u32>
    decreases s,
{
    if s.len() == 0 {
        Set::empty()
    } else {
        vars_subst(s.drop_last()).union(vars(s.last().1))
    }
}

/// Whether `ty` contains no inference variable, in any component (array elements,
/// nominal substitutions, function and tuple parts).
pub fn is_fully_known(ty: &Type) -> (r: bool)
    ensures
        r == (vars(ty@) == Set::<u32>::empty()),
    decreases *ty,
{
    match ty {
        Type::Unknown(id) => {
            assert(vars(ty@).contains(*id) && !Set::<u32>::empty().contains(*id));
            false
        },
        Type::Array(t, _) => is_fully_known(t),
        Type::Slice(t) => is_fully_known(t),
        Type::Nullable(t) => is_fully_known(t),
        Type::ConstOf(t) => is_fully_known(t),
        Type::Mut(t) => is_fully_known(t),
        Type::Ref(t) => is_fully_known(t),
        Type::Fun(ps, r) => {
            let a = all_fully_known(ps);
            let b = is_fully_known(r);
            proof {
                union_empty(vars_all(types_view(ps@)), vars(r@));
            }
            a && b
        },
        Type::Tuple(ts) => all_fully_known(ts),
        Type::Record(n) => subst_fully_known(&n.substitution),
        Type::Sum(n) => subst_fully_known(&n.substitution),
        _ => true,
    }
}

proof fn union_empty(a: Set<u32>, b: Set<u32>)
    ensures
        a.union(b) == Set::<u32>::empty() <==> a == Set::<u32>::empty() && b == Set::<u32>::empty(),
{
    if a.union(b) == Set::<u32>::empty() {
        assert forall|x: u32| !a.contains(x) && !b.contains(x) by {
            assert(!a.union(b).contains(x));
        }
        assert(a =~= Set::<u32>::empty());
        assert(b =~= Set::<u32>::empty());
    } else {
        if a == Set::<u32>::empty() && b == Set::<u32>::empty() {
            assert(a.union(b) =~= Set::<u32>::empty());
        }
    }
}

fn all_fully_known(ts: &Vec<Type>) -> (r: bool)
    ensures
        r == (vars_all(types_view(ts@)) == Set::<u32>::empty()),
    decreases *ts,
{
    let mut r = true;
    let ghost all = types_view(ts@);
    for i in 0..ts.len()
        invariant
            all == types_view(ts@),
            r == (vars_all(all.take(i as int)) == Set::<u32>::empty()),
    {
        let k = is_fully_known(&ts[i]);
        proof {
            assert(all.take(i + 1).drop_last() =~= all.take(i as int));
            union_empty(vars_all(all.take(i as int)), vars(ts[i as int]@));
        }
        r = r && k;
    }
    assert(all.take(ts.len() as int) =~= all);
    r
}

fn subst_fully_known(s: &Substitution) -> (r: bool)
    ensures
        r == (vars_subst(s@) == Set::<u32>::empty()),
    decreases *s,
{
    let mut r = true;
    let n = s.len();
    for i in 0..n
        invariant
            n == s@.len(),
            r == (vars_subst(s@.take(i as int)) == Set::<u32>::empty()),
    {
        let k = is_fully_known(s.type_at(i));
        proof {
            assert(s@.take(i + 1).drop_last() =~= s@.take(i as int));
            union_empty(vars_subst(s@.take(i as int)), vars(s@[i as int].1));
        }
        r = r && k;
    }
    assert(s@.take(n as int) =~= s@);
    r
}

/// The inference variable ids occurring anywhere in `ty`.
pub fn free_vars(ty: &Type) -> (r: HashSet<u32>)
    ensures
        r@ == vars(ty@),
{
    broadcast use vstd::std_specs::hash::group_hash_axioms;

    let mut out: HashSet<u32> = HashSet::new();
    add_vars(ty, &mut out);
    assert(Set::<u32>::empty().union(vars(ty@)) =~= vars(ty@));
    out
}

fn add_vars(ty: &Type, out: &mut HashSet<u32>)
    ensures
        final(out)@ == old(out)@.union(vars(ty@)),
    decreases *ty,
{
    broadcast use vstd::std_specs::hash::group_hash_axioms;

    match ty {
        Type::Unknown(id) => {
            out.insert(*id);
            assert(out@ =~= old(out)@.union(vars(ty@)));
        },
        Type::Array(t, _) => add_vars(t, out),
        Type::Slice(t) => add_vars(t, out),
        Type::Nullable(t) => add_vars(t, out),
        Type::ConstOf(t) => add_vars(t, out),
        Type::Mut(t) => add_vars(t, out),
        Type::Ref(t) => add_vars(t, out),
        Type::Fun(ps, r) => {
            add_vars_all(ps, out);
            add_vars(r, out);
            assert(out@ =~= old(out)@.union(vars(ty@)));
        },
        Type::Tuple(ts) => add_vars_all(ts, out),
        Type::Record(n) => add_vars_subst(&n.substitution, out),
        Type::Sum(n) => add_vars_subst(&n.substitution, out),
        _ => {
            assert(out@ =~= old(out)@.union(vars(ty@)));
        },
    }
}

fn add_vars_all(ts: &Vec<Type>, out: &mut HashSet<u32>)
    ensures
        final(out)@ == old(out)@.union(vars_all(types_view(ts@))),
    decreases *ts,
{
    let ghost all = types_view(ts@);
    assert(out@ =~= out@.union(vars_all(all.take(0))));
    for i in 0..ts.len()
        invariant
            all == types_view(ts@),
            out@ == old(out)@.union(vars_all(all.take(i as int))),
    {
        add_vars(&ts[i], out);
        proof {
            assert(all.take(i + 1).drop_last() =~= all.take(i as int));
            assert(out@ =~= old(out)@.union(vars_all(all.take(i + 1))));
        }
    }
    assert(all.take(ts.len() as int) =~= all);
}

fn add_vars_subst(s: &Substitution, out: &mut HashSet<u32>)
    ensures
        final(out)@ == old(out)@.union(vars_subst(s@)),
    decreases *s,
{
    let n = s.len();
    assert(out@ =~= out@.union(vars_subst(s@.take(0))));
    for i in 0..n
        invariant
            n == s@.len(),
            out@ == old(out)@.union(vars_subst(s@.take(i as int))),
    {
        add_vars(s.type_at(i), out);
        proof {
            assert(s@.take(i + 1).drop_last() =~= s@.take(i as int));
            assert(out@ =~= old(out)@.union(vars_subst(s@.take(i + 1))));
        }
    }
    assert(s@.take(n as int) =~= s@);
}

/// The value type behind parameter-passing mode wrappers.
pub open spec fn peeled(ty: TypeV) -> TypeV
    decreases ty,
{
    match ty {
        TypeV::Ref(t) => peeled(*t),
        TypeV::Mut(t) => peeled(*t),
        TypeV::ConstOf(t) => peeled(*t),
        _ => ty,
    }
}

/// The value type behind parameter-passing mode wrappers: `ref(T)`, `mut(T)` and
/// `const` views expose the underlying value's fields, elements and methods, so
/// member access and member type checks must look through them.
pub fn peel_modes(ty: &Type) -> (r: &Type)
    ensures
        r@ == peeled(ty@),
    decreases *ty,
{
    match ty {
        Type::Ref(t) => peel_modes(t),
        Type::Mut(t) => peel_modes(t),
        Type::ConstOf(t) => peel_modes(t),
        _ => ty,
    }
}

/// What lies behind the mode wrappers is no mode wrapper itself.
pub proof fn peeled_is_bare(ty: TypeV)
    ensures
        !(peeled(ty) is Ref),
        !(peeled(ty) is Mut),
        !(peeled(ty) is ConstOf),
        peeled(peeled(ty)) == peeled(ty),
    decreases ty,
{
    match ty {
        TypeV::Ref(t) => {
            peeled_is_bare(*t);
        },
        TypeV::Mut(t) => {
            peeled_is_bare(*t);
        },
        TypeV::ConstOf(t) => {
            peeled_is_bare(*t);
        },
        _ => {},
    }
}

// ---- fresh variables ----

/// How many `infer` placeholders a type holds.
pub open spec fn infer_count(t: TypeV) -> nat
    decreases t,
{
    match t {
        TypeV::Unknown(id) => if id == INFER_VAR {
            1
        } else {
            0
        },
        TypeV::Array(t, _) => infer_count(*t),
        TypeV::Slice(t) => infer_count(*t),
        TypeV::Nullable(t) => infer_count(*t),
        TypeV::ConstOf(t) => infer_count(*t),
        TypeV::Mut(t) => infer_count(*t),
        TypeV::Ref(t) => infer_count(*t),
        TypeV::Fun(ps, r) => infer_count_all(ps) + infer_count(*r),
        TypeV::Tuple(ts) => infer_count_all(ts),
        TypeV::Record(n) => infer_count_subst(n.subst),
        TypeV::Sum(n) => infer_count_subst(n.subst),
        _ => 0,
    }
}

/// How many `infer` placeholders the types hold.
pub open spec fn infer_count_all(ts: Seq<TypeV>) -> nat
    decreases ts,
{
    if ts.len() == 0 {
        0
    } else {
        infer_count_all(ts.drop_last()) + infer_count(ts.last())
    }
}

/// How many `infer` placeholders the entries hold.
pub open spec fn infer_count_subst(s: Seq<(Seq<char>, TypeV)>) -> nat
    decreases s,
{
    if s.len() == 0 {
        0
    } else {
        infer_count_subst(s.drop_last()) + infer_count(s.last().1)
    }
}

/// A type with its `infer` placeholders numbered from `next` on, left to right.
pub open spec fn freshened(t: TypeV, next: nat) -> TypeV
    decreases t,
{
    match t {
        TypeV::Unknown(id) => if id == INFER_VAR {
            TypeV::Unknown(next as u32)
        } else {
            t
        },
        TypeV::Array(t, n) => TypeV::Array(Box::new(freshened(*t, next)), n),
        TypeV::Slice(t) => TypeV::Slice(Box::new(freshened(*t, next))),
        TypeV::Nullable(t) => TypeV::Nullable(Box::new(freshened(*t, next))),
        TypeV::ConstOf(t) => TypeV::ConstOf(Box::new(freshened(*t, next))),
        TypeV::Mut(t) => TypeV::Mut(Box::new(freshened(*t, next))),
        TypeV::Ref(t) => TypeV::Ref(Box::new(freshened(*t, next))),
        TypeV::Fun(ps, r) => TypeV::Fun(
            freshened_all(ps, next),
            Box::new(freshened(*r, next + infer_count_all(ps))),
        ),
        TypeV::Tuple(ts) => TypeV::Tuple(freshened_all(ts, next)),
        TypeV::Record(n) => TypeV::Record(
            NominalV { id: n.id, name: n.name, subst: freshened_subst(n.subst, next) },
        ),
        TypeV::Sum(n) => TypeV::Sum(
            NominalV { id: n.id, name: n.name, subst: freshened_subst(n.subst, next) },
        ),
        _ => t,
    }
}

/// The types with their `infer` placeholders numbered from `next` on.
pub open spec fn freshened_all(ts: Seq<TypeV>, next: nat) -> Seq<TypeV>
    decreases ts,
{
    if ts.len() == 0 {
        Seq::empty()
    } else {
        freshened_all(ts.drop_last(), next).push(
            freshened(ts.last(), next + infer_count_all(ts.drop_last())),
        )
    }
}

/// The entries with their `infer` placeholders numbered from `next` on.
pub open spec fn freshened_subst(s: Seq<(Seq<char>, TypeV)>, next: nat) -> Seq<(Seq<char>, TypeV)>
    decreases s,
{
    if s.len() == 0 {
        Seq::empty()
    } else {
        freshened_subst(s.drop_last(), next).push(
            (s.last().0, freshened(s.last().1, next + infer_count_subst(s.drop_last()))),
        )
    }
}

/// The ids `lo..hi`.
pub open spec fn id_range(lo: nat, hi: nat) -> Set<u32> {
    Set::new(|id: u32| lo <= id < hi)
}

/// After freshening every placeholder is its own variable: the variables are the
/// ones the type had, without the placeholder, and as many new ones as there were
/// placeholders.
pub proof fn freshened_vars(t: TypeV, next: nat)
    requires
        next + infer_count(t) <= u32::MAX,
    ensures
        vars(freshened(t, next)) == vars(t).remove(INFER_VAR).union(
            id_range(next, next + infer_count(t)),
        ),
        !vars(freshened(t, next)).contains(INFER_VAR),
    decreases t,
{
    let out = freshened(t, next);
    match t {
        TypeV::Unknown(id) => {
            assert(vars(out) =~= vars(t).remove(INFER_VAR).union(
                id_range(next, next + infer_count(t)),
            ));
        },
        TypeV::Array(e, _) => freshened_vars(*e, next),
        TypeV::Slice(e) => freshened_vars(*e, next),
        TypeV::Nullable(e) => freshened_vars(*e, next),
        TypeV::ConstOf(e) => freshened_vars(*e, next),
        TypeV::Mut(e) => freshened_vars(*e, next),
        TypeV::Ref(e) => freshened_vars(*e, next),
        TypeV::Fun(ps, r) => {
            freshened_vars_all(ps, next);
            freshened_vars(*r, next + infer_count_all(ps));
            assert(vars(out) =~= vars(t).remove(INFER_VAR).union(
                id_range(next, next + infer_count(t)),
            ));
        },
        TypeV::Tuple(ts) => freshened_vars_all(ts, next),
        TypeV::Record(n) => freshened_vars_subst(n.subst, next),
        TypeV::Sum(n) => freshened_vars_subst(n.subst, next),
        _ => {
            assert(vars(out) =~= vars(t).remove(INFER_VAR).union(
                id_range(next, next + infer_count(t)),
            ));
        },
    }
}

proof fn freshened_vars_all(ts: Seq<TypeV>, next: nat)
    requires
        next + infer_count_all(ts) <= u32::MAX,
    ensures
        vars_all(freshened_all(ts, next)) == vars_all(ts).remove(INFER_VAR).union(
            id_range(next, next + infer_count_all(ts)),
        ),
        !vars_all(freshened_all(ts, next)).contains(INFER_VAR),
    decreases ts,
{
    let out = freshened_all(ts, next);
    if ts.len() > 0 {
        freshened_vars_all(ts.drop_last(), next);
        freshened_vars(ts.last(), next + infer_count_all(ts.drop_last()));
        assert(out.drop_last() =~= freshened_all(ts.drop_last(), next));
    }
    assert(vars_all(out) =~= vars_all(ts).remove(INFER_VAR).union(
        id_range(next, next + infer_count_all(ts)),
    ));
}

proof fn freshened_vars_subst(s: Seq<(Seq<char>, TypeV)>, next: nat)
    requires
        next + infer_count_subst(s) <= u32::MAX,
    ensures
        vars_subst(freshened_subst(s, next)) == vars_subst(s).remove(INFER_VAR).union(
            id_range(next, next + infer_count_subst(s)),
        ),
        !vars_subst(freshened_subst(s, next)).contains(INFER_VAR),
    decreases s,
{
    let out = freshened_subst(s, next);
    if s.len() > 0 {
        freshened_vars_subst(s.drop_last(), next);
        freshened_vars(s.last().1, next + infer_count_subst(s.drop_last()));
        assert(out.drop_last() =~= freshened_subst(s.drop_last(), next));
    }
    assert(vars_subst(out) =~= vars_subst(s).remove(INFER_VAR).union(
        id_range(next, next + infer_count_subst(s)),
    ));
}

/// Replace every `infer` placeholder ([`INFER_VAR`]) in a resolved type with a
/// distinct fresh variable numbered from `next` on, recursing into composite
/// types and into a `Result`'s payload substitution. So each `infer` (and each
/// `T!` error payload) becomes its own inference variable. The caller owns the
/// counter, so the fresh ids slot into its inference namespace.
pub fn freshen_infer(ty: Type, next: &mut u32) -> (r: Type)
    requires
        *old(next) + infer_count(ty@) <= u32::MAX,
    ensures
        r@ == freshened(ty@, *old(next) as nat),
        *final(next) == *old(next) + infer_count(ty@),
{
    freshen_type(&ty, next)
}

proof fn infer_count_all_le(ts: Seq<TypeV>, n: int)
    requires
        0 <= n <= ts.len(),
    ensures
        infer_count_all(ts.take(n)) <= infer_count_all(ts),
    decreases ts.len(),
{
    if n == ts.len() {
        assert(ts.take(n) =~= ts);
    } else {
        assert(ts.drop_last().take(n) =~= ts.take(n));
        infer_count_all_le(ts.drop_last(), n);
    }
}

proof fn infer_count_subst_le(s: Seq<(Seq<char>, TypeV)>, n: int)
    requires
        0 <= n <= s.len(),
    ensures
        infer_count_subst(s.take(n)) <= infer_count_subst(s),
    decreases s.len(),
{
    if n == s.len() {
        assert(s.take(n) =~= s);
    } else {
        assert(s.drop_last().take(n) =~= s.take(n));
        infer_count_subst_le(s.drop_last(), n);
    }
}

fn freshen_list(ts: &Vec<Type>, next: &mut u32) -> (r: Vec<Type>)
    requires
        *old(next) + infer_count_all(types_view(ts@)) <= u32::MAX,
    ensures
        types_view(r@) == freshened_all(types_view(ts@), *old(next) as nat),
        *final(next) == *old(next) + infer_count_all(types_view(ts@)),
    decreases *ts,
{
    let mut out: Vec<Type> = Vec::new();
    let ghost all = types_view(ts@);
    let ghost start = *next;
    assert(types_view(out@) =~= freshened_all(all.take(0), start as nat));
    for i in 0..ts.len()
        invariant
            all == types_view(ts@),
            start + infer_count_all(all) <= u32::MAX,
            types_view(out@) == freshened_all(all.take(i as int), start as nat),
            *next == start + infer_count_all(all.take(i as int)),
    {
        let ghost before = types_view(out@);
        proof {
            assert(all.take(i + 1).drop_last() =~= all.take(i as int));
            infer_count_all_le(all, i + 1);
        }
        let f = freshen_type(&ts[i], next);
        out.push(f);
        assert(types_view(out@) =~= before.push(f@));
    }
    assert(all.take(ts.len() as int) =~= all);
    out
}

fn freshen_type(t: &Type, next: &mut u32) -> (r: Type)
    requires
        *old(next) + infer_count(t@) <= u32::MAX,
    ensures
        r@ == freshened(t@, *old(next) as nat),
        *final(next) == *old(next) + infer_count(t@),
    decreases *t,
{
    match t {
        Type::Unknown(id) => {
            if *id == INFER_VAR {
                let fresh = *next;
                *next = fresh + 1;
                Type::Unknown(fresh)
            } else {
                Type::Unknown(*id)
            }
        },
        Type::Array(t, n) => Type::Array(Box::new(freshen_type(t, next)), *n),
        Type::Slice(t) => Type::Slice(Box::new(freshen_type(t, next))),
        Type::Nullable(t) => Type::Nullable(Box::new(freshen_type(t, next))),
        Type::ConstOf(t) => Type::ConstOf(Box::new(freshen_type(t, next))),
        Type::Mut(t) => Type::Mut(Box::new(freshen_type(t, next))),
        Type::Ref(t) => Type::Ref(Box::new(freshen_type(t, next))),
        Type::Fun(ps, r) => {
            let ps2 = freshen_list(ps, next);
            let r2 = freshen_type(r, next);
            Type::Fun(ps2, Box::new(r2))
        },
        Type::Tuple(ts) => Type::Tuple(freshen_list(ts, next)),
        // A nominal's payload substitution (e.g. a `T!` -> `Result`'s open error
        // type) is rewritten in place; the Record/Sum kind is preserved.
        Type::Record(n) => Type::Record(freshen_nominal(n, next)),
        Type::Sum(n) => Type::Sum(freshen_nominal(n, next)),
        _ => clone_type(t),
    }
}

fn freshen_nominal(n: &NominalType, next: &mut u32) -> (r: NominalType)
    requires
        *old(next) + infer_count_subst(n@.subst) <= u32::MAX,
    ensures
        r@ == (NominalV {
            id: n@.id,
            name: n@.name,
            subst: freshened_subst(n@.subst, *old(next) as nat),
        }),
        *final(next) == *old(next) + infer_count_subst(n@.subst),
    decreases *n,
{
    let s = &n.substitution;
    let mut types: Vec<Type> = Vec::new();
    let ghost start = *next;
    let count = s.len();
    for i in 0..count
        invariant
            count == s@.len(),
            *s == n.substitution,
            start + infer_count_subst(s@) <= u32::MAX,
            types.len() == i,
            with_types_view(s@.take(i as int), types_view(types@)) == freshened_subst(
                s@.take(i as int),
                start as nat,
            ),
            *next == start + infer_count_subst(s@.take(i as int)),
    {
        let ghost before = with_types_view(s@.take(i as int), types_view(types@));
        proof {
            assert(s@.take(i + 1).drop_last() =~= s@.take(i as int));
            infer_count_subst_le(s@, i + 1);
        }
        let f = freshen_type(s.type_at(i), next);
        types.push(f);
        assert(with_types_view(s@.take(i + 1), types_view(types@)) =~= before.push(
            (s@[i as int].0, f@),
        ));
    }
    assert(s@.take(count as int) =~= s@);
    NominalType { id: n.id, name: n.name.clone(), substitution: s.with_types(types) }
}

// ---- substitution of variables ----

/// The models of the types a map holds.
pub open spec fn bindings(m: Map<u32, Type>) -> Map<u32, TypeV> {
    m.map_values(|t: Type| t@)
}

/// `t` with each variable in `m` replaced by its type.
pub open spec fn substituted(t: TypeV, m: Map<u32, TypeV>) -> TypeV
    decreases t,
{
    match t {
        TypeV::Unknown(id) => if m.contains_key(id) {
            m[id]
        } else {
            t
        },
        TypeV::Array(t, n) => TypeV::Array(Box::new(substituted(*t, m)), n),
        TypeV::Slice(t) => TypeV::Slice(Box::new(substituted(*t, m))),
        TypeV::Nullable(t) => TypeV::Nullable(Box::new(substituted(*t, m))),
        TypeV::ConstOf(t) => TypeV::ConstOf(Box::new(substituted(*t, m))),
        TypeV::Mut(t) => TypeV::Mut(Box::new(substituted(*t, m))),
        TypeV::Ref(t) => TypeV::Ref(Box::new(substituted(*t, m))),
        TypeV::Fun(ps, r) => TypeV::Fun(substituted_all(ps, m), Box::new(substituted(*r, m))),
        TypeV::Tuple(ts) => TypeV::Tuple(substituted_all(ts, m)),
        TypeV::Record(n) => TypeV::Record(
            NominalV { id: n.id, name: n.name, subst: substituted_entries(n.subst, m) },
        ),
        TypeV::Sum(n) => TypeV::Sum(
            NominalV { id: n.id, name: n.name, subst: substituted_entries(n.subst, m) },
        ),
        _ => t,
    }
}

/// Each type with the variables in `m` replaced.
pub open spec fn substituted_all(ts: Seq<TypeV>, m: Map<u32, TypeV>) -> Seq<TypeV>
    decreases ts,
{
    Seq::new(
        ts.len(),
        |i: int| if 0 <= i < ts.len() { substituted(ts[i], m) } else { arbitrary() },
    )
}

/// Each entry with the variables in `m` replaced.
pub open spec fn substituted_entries(
    s: Seq<(Seq<char>, TypeV)>,
    m: Map<u32, TypeV>,
) -> Seq<(Seq<char>, TypeV)>
    decreases s,
{
    Seq::new(
        s.len(),
        |i: int| if 0 <= i < s.len() { (s[i].0, substituted(s[i].1, m)) } else { arbitrary() },
    )
}

/// A type none of whose variables is in `m` is left as it is.
pub proof fn substituted_untouched(t: TypeV, m: Map<u32, TypeV>)
    requires
        vars(t).disjoint(m.dom()),
    ensures
        substituted(t, m) == t,
    decreases t,
{
    match t {
        TypeV::Unknown(id) => {
            assert(vars(t).contains(id));
        },
        TypeV::Array(e, _) => substituted_untouched(*e, m),
        TypeV::Slice(e) => substituted_untouched(*e, m),
        TypeV::Nullable(e) => substituted_untouched(*e, m),
        TypeV::ConstOf(e) => substituted_untouched(*e, m),
        TypeV::Mut(e) => substituted_untouched(*e, m),
        TypeV::Ref(e) => substituted_untouched(*e, m),
        TypeV::Fun(ps, r) => {
            assert forall|id: u32| vars_all(ps).contains(id) implies !m.dom().contains(id) by {
                assert(vars(t).contains(id));
            }
            assert forall|id: u32| vars(*r).contains(id) implies !m.dom().contains(id) by {
                assert(vars(t).contains(id));
            }
            substituted_all_untouched(ps, m);
            substituted_untouched(*r, m);
        },
        TypeV::Tuple(ts) => substituted_all_untouched(ts, m),
        TypeV::Record(n) => substituted_entries_untouched(n.subst, m),
        TypeV::Sum(n) => substituted_entries_untouched(n.subst, m),
        _ => {},
    }
}

proof fn vars_all_member(ts: Seq<TypeV>, i: int)
    requires
        0 <= i < ts.len(),
    ensures
        vars(ts[i]).subset_of(vars_all(ts)),
    decreases ts.len(),
{
    if i < ts.len() - 1 {
        vars_all_member(ts.drop_last(), i);
        assert(ts.drop_last()[i] == ts[i]);
    }
}

proof fn vars_subst_member(s: Seq<(Seq<char>, TypeV)>, i: int)
    requires
        0 <= i < s.len(),
    ensures
        vars(s[i].1).subset_of(vars_subst(s)),
    decreases s.len(),
{
    if i < s.len() - 1 {
        vars_subst_member(s.drop_last(), i);
        assert(s.drop_last()[i] == s[i]);
    }
}

proof fn substituted_all_untouched(ts: Seq<TypeV>, m: Map<u32, TypeV>)
    requires
        vars_all(ts).disjoint(m.dom()),
    ensures
        substituted_all(ts, m) == ts,
    decreases ts,
{
    assert forall|i: int| 0 <= i < ts.len() implies substituted_all(ts, m)[i] == ts[i] by {
        vars_all_member(ts, i);
        substituted_untouched(ts[i], m);
    }
    assert(substituted_all(ts, m) =~= ts);
}

proof fn substituted_entries_untouched(s: Seq<(Seq<char>, TypeV)>, m: Map<u32, TypeV>)
    requires
        vars_subst(s).disjoint(m.dom()),
    ensures
        substituted_entries(s, m) == s,
    decreases s,
{
    assert forall|i: int| 0 <= i < s.len() implies substituted_entries(s, m)[i] == s[i] by {
        vars_subst_member(s, i);
        substituted_untouched(s[i].1, m);
    }
    assert(substituted_entries(s, m) =~= s);
}

/// Replace each variable that `map` binds, throughout a type.
pub fn substitute_vars(ty: &Type, map: &HashMap<u32, Type>) -> (r: Type)
    ensures
        r@ == substituted(ty@, bindings(map@)),
    decreases *ty,
{
    broadcast use vstd::std_specs::hash::group_hash_axioms;

    match ty {
        Type::Unknown(id) => match map.get(id) {
            Some(t) => clone_type(t),
            None => Type::Unknown(*id),
        },
        Type::Array(t, n) => Type::Array(Box::new(substitute_vars(t, map)), *n),
        Type::Slice(t) => Type::Slice(Box::new(substitute_vars(t, map))),
        Type::Nullable(t) => Type::Nullable(Box::new(substitute_vars(t, map))),
        Type::ConstOf(t) => Type::ConstOf(Box::new(substitute_vars(t, map))),
        Type::Mut(t) => Type::Mut(Box::new(substitute_vars(t, map))),
        Type::Ref(t) => Type::Ref(Box::new(substitute_vars(t, map))),
        Type::Fun(ps, r) => Type::Fun(
            substitute_vars_all(ps, map),
            Box::new(substitute_vars(r, map)),
        ),
        Type::Tuple(ts) => Type::Tuple(substitute_vars_all(ts, map)),
        Type::Record(n) => Type::Record(substitute_nominal(n, map)),
        Type::Sum(n) => Type::Sum(substitute_nominal(n, map)),
        _ => clone_type(ty),
    }
}

fn substitute_vars_all(ts: &Vec<Type>, map: &HashMap<u32, Type>) -> (r: Vec<Type>)
    ensures
        types_view(r@) == substituted_all(types_view(ts@), bindings(map@)),
    decreases *ts,
{
    let mut out: Vec<Type> = Vec::new();
    for i in 0..ts.len()
        invariant
            out.len() == i,
            forall|j: int|
                0 <= j < i ==> (#[trigger] out[j])@ == substituted(ts[j]@, bindings(map@)),
    {
        out.push(substitute_vars(&ts[i], map));
    }
    assert(types_view(out@) =~= substituted_all(types_view(ts@), bindings(map@)));
    out
}

fn substitute_nominal(n: &NominalType, map: &HashMap<u32, Type>) -> (r: NominalType)
    ensures
        r@ == (NominalV {
            id: n@.id,
            name: n@.name,
            subst: substituted_entries(n@.subst, bindings(map@)),
        }),
    decreases *n,
{
    let s = &n.substitution;
    let count = s.len();
    let mut types: Vec<Type> = Vec::new();
    for i in 0..count
        invariant
            count == s@.len(),
            *s == n.substitution,
            types.len() == i,
            forall|j: int|
                0 <= j < i ==> (#[trigger] types[j])@ == substituted(s@[j].1, bindings(map@)),
    {
        types.push(substitute_vars(s.type_at(i), map));
    }
    assert(with_types_view(s@, types_view(types@)) =~= substituted_entries(
        s@,
        bindings(map@),
    ));
    NominalType { id: n.id, name: n.name.clone(), substitution: s.with_types(types) }
}

} // verus!
