//! Runtime values and their arithmetic.
//!
//! An [`Atom`] is a fully evaluated value.  Floats are carried as
//! IEEE-754 double bit patterns; every operation on those bits is
//! delegated to the caller's arithmetic hook (see the crate root).
use vstd::prelude::*;

use crate::block::{Block, block_view, BlockV};
use crate::parser::{S, SV, ss_view};
use crate::text::{chars_eq, clone_chars, int_chars, i64_to_chars, push_chars};
use crate::{arith_callable, obeys_arith, obeys_print, print_callable, Error, FloatOp};

verus! {

/// A runtime value.
#[derive(Debug)]
pub enum Atom {
    /// Text.
    Str(Vec<char>),
    /// An IEEE-754 double, as its bit pattern.
    Float(u64),
    /// A signed machine integer.
    Int(i64),
    /// A truth value.
    Bool(bool),
    /// An ordered sequence of values.
    Array(Vec<Atom>),
    /// A first-class function.
    Function(FunctionData),
    /// The out-of-band signal a `break` statement produces; never the
    /// value of an expression.
    Break,
}

/// A call expression: a function name and its argument expressions.
#[derive(Debug)]
pub struct FunctionCall {
    pub name: Vec<char>,
    pub args: Vec<S>,
}

/// A function value: parameter names and a body block.
#[derive(Debug)]
pub struct FunctionData {
    pub arg_names: Vec<Vec<char>>,
    pub fn_block: Block,
}

/// The mathematical model of a value.
#[verifier::ext_equal]
pub enum AtomV {
    Str(Seq<char>),
    Float(u64),
    Int(i64),
    Bool(bool),
    Array(Seq<AtomV>),
    Function(FunctionDataV),
    Break,
}

/// The mathematical model of a call expression.
#[verifier::ext_equal]
pub struct FunctionCallV {
    pub name: Seq<char>,
    pub args: Seq<SV>,
}

/// The mathematical model of a function value.
#[verifier::ext_equal]
pub struct FunctionDataV {
    pub arg_names: Seq<Seq<char>>,
    pub fn_block: BlockV,
}

pub open spec fn atom_view(a: Atom) -> AtomV
    decreases a,
{
    match a {
        Atom::Str(s) => AtomV::Str(s@),
        Atom::Float(b) => AtomV::Float(b),
        Atom::Int(i) => AtomV::Int(i),
        Atom::Bool(b) => AtomV::Bool(b),
        Atom::Array(v) => AtomV::Array(atoms_view(v@)),
        Atom::Function(d) => AtomV::Function(fndata_view(d)),
        Atom::Break => AtomV::Break,
    }
}

pub open spec fn atoms_view(s: Seq<Atom>) -> Seq<AtomV>
    decreases s,
{
    if s.len() == 0 {
        Seq::empty()
    } else {
        seq![atom_view(s[0])] + atoms_view(s.drop_first())
    }
}

pub open spec fn fncall_view(f: FunctionCall) -> FunctionCallV
    decreases f,
{
    FunctionCallV { name: f.name@, args: ss_view(f.args@) }
}

pub open spec fn fndata_view(d: FunctionData) -> FunctionDataV
    decreases d,
{
    FunctionDataV {
        arg_names: d.arg_names@.map_values(|n: Vec<char>| n@),
        fn_block: block_view(d.fn_block),
    }
}

impl View for Atom {
    type V = AtomV;

    open spec fn view(&self) -> AtomV {
        atom_view(*self)
    }
}

impl View for FunctionCall {
    type V = FunctionCallV;

    open spec fn view(&self) -> FunctionCallV {
        fncall_view(*self)
    }
}

impl View for FunctionData {
    type V = FunctionDataV;

    open spec fn view(&self) -> FunctionDataV {
        fndata_view(*self)
    }
}

pub proof fn lemma_atoms_view_len(s: Seq<Atom>)
    ensures
        atoms_view(s).len() == s.len(),
    decreases s,
{
    if s.len() > 0 {
        lemma_atoms_view_len(s.drop_first());
    }
}

pub proof fn lemma_atoms_view_index(s: Seq<Atom>, i: int)
    requires
        0 <= i < s.len(),
    ensures
        atoms_view(s).len() == s.len(),
        atoms_view(s)[i] == atom_view(s[i]),
    decreases s,
{
    lemma_atoms_view_len(s);
    if i > 0 {
        lemma_atoms_view_index(s.drop_first(), i - 1);
    }
}

pub proof fn lemma_atoms_view_push(s: Seq<Atom>, a: Atom)
    ensures
        atoms_view(s.push(a)) == atoms_view(s).push(atom_view(a)),
    decreases s,
{
    if s.len() == 0 {
        assert(s.push(a).drop_first() =~= Seq::<Atom>::empty());
        assert(s.push(a)[0] == a);
        assert(atoms_view(s.push(a)) == seq![atom_view(a)] + atoms_view(s.push(a).drop_first()));
        assert(atoms_view(Seq::<Atom>::empty()) =~= Seq::<AtomV>::empty());
        assert(atoms_view(s.push(a)) =~= atoms_view(s).push(atom_view(a)));
    } else {
        assert(s.push(a).drop_first() =~= s.drop_first().push(a));
        lemma_atoms_view_push(s.drop_first(), a);
        assert(atoms_view(s.push(a)) =~= atoms_view(s).push(atom_view(a)));
    }
}

pub proof fn lemma_atoms_view_pointwise(x: Seq<Atom>, y: Seq<Atom>)
    requires
        x.len() == y.len(),
        forall|k: int| 0 <= k < x.len() ==> atom_view(#[trigger] x[k]) == atom_view(y[k]),
    ensures
        atoms_view(x) == atoms_view(y),
    decreases x,
{
    if x.len() > 0 {
        assert forall|k: int| 0 <= k < x.drop_first().len() implies atom_view(
            #[trigger] x.drop_first()[k],
        ) == atom_view(y.drop_first()[k]) by {
            assert(x.drop_first()[k] == x[k + 1]);
            assert(y.drop_first()[k] == y[k + 1]);
        }
        lemma_atoms_view_pointwise(x.drop_first(), y.drop_first());
        assert(atoms_view(x) =~= atoms_view(y));
    } else {
        assert(atoms_view(x) =~= atoms_view(y));
    }
}

/// A copy of a value, equal in the model.
pub fn clone_atom(a: &Atom) -> (r: Atom)
    ensures
        r@ == a@,
    decreases *a,
{
    match a {
        Atom::Str(s) => Atom::Str(crate::text::clone_chars(s)),
        Atom::Float(b) => Atom::Float(*b),
        Atom::Int(i) => Atom::Int(*i),
        Atom::Bool(b) => Atom::Bool(*b),
        Atom::Break => Atom::Break,
        Atom::Array(v) => {
            let mut out: Vec<Atom> = Vec::new();
            let mut j: usize = 0;
            while j < v.len()
                invariant
                    j <= v@.len(),
                    out@.len() == j,
                    forall|k: int| 0 <= k < j ==> atom_view(#[trigger] out@[k]) == atom_view(
                        v@[k],
                    ),
                decreases v@.len() - j,
            {
                proof {
                    assert(decreases_to!(*a => *v));
                    assert(decreases_to!(*v => v@[j as int]));
                }
                let c = clone_atom(&v[j]);
                out.push(c);
                j = j + 1;
            }
            proof {
                lemma_atoms_view_pointwise(out@, v@);
            }
            Atom::Array(out)
        },
        Atom::Function(d) => {
            proof {
                assert(decreases_to!(*a => *d));
            }
            Atom::Function(clone_fndata(d))
        },
    }
}

/// A copy of a function value, equal in the model.
pub fn clone_fndata(d: &FunctionData) -> (r: FunctionData)
    ensures
        r@ == d@,
    decreases *d,
{
    let mut names: Vec<Vec<char>> = Vec::new();
    let mut j: usize = 0;
    while j < d.arg_names.len()
        invariant
            j <= d.arg_names@.len(),
            names@.len() == j,
            forall|k: int| 0 <= k < j ==> #[trigger] names@[k]@ == d.arg_names@[k]@,
        decreases d.arg_names@.len() - j,
    {
        let c = crate::text::clone_chars(&d.arg_names[j]);
        names.push(c);
        j = j + 1;
    }
    proof {
        assert(decreases_to!(*d => d.fn_block));
    }
    let b = crate::block::clone_block(&d.fn_block);
    proof {
        assert(names@.map_values(|n: Vec<char>| n@) =~= d.arg_names@.map_values(
            |n: Vec<char>| n@,
        ));
    }
    FunctionData { arg_names: names, fn_block: b }
}

/// A copy of a call expression, equal in the model.
pub fn clone_fncall(f: &FunctionCall) -> (r: FunctionCall)
    ensures
        r@ == f@,
    decreases *f,
{
    let name = crate::text::clone_chars(&f.name);
    let mut args: Vec<S> = Vec::new();
    let mut j: usize = 0;
    while j < f.args.len()
        invariant
            j <= f.args@.len(),
            args@.len() == j,
            forall|k: int| 0 <= k < j ==> crate::parser::s_view(#[trigger] args@[k])
                == crate::parser::s_view(f.args@[k]),
        decreases f.args@.len() - j,
    {
        proof {
            assert(decreases_to!(*f => f.args));
            assert(decreases_to!(f.args => f.args@[j as int]));
        }
        let c = crate::parser::clone_s(&f.args[j]);
        args.push(c);
        j = j + 1;
    }
    proof {
        crate::parser::lemma_ss_view_pointwise(args@, f.args@);
    }
    FunctionCall { name, args }
}

/// The absolute value.
pub open spec fn sabs(x: int) -> int {
    if x < 0 {
        -x
    } else {
        x
    }
}

/// The two's-complement bit pattern of an `i64`, as a `u64`.
pub open spec fn i64_bits(i: i64) -> u64 {
    if i >= 0 {
        i as u64
    } else {
        (i + 0x1_0000_0000_0000_0000) as u64
    }
}

/// Remainder rounding toward zero, as machine arithmetic computes it.
pub open spec fn trunc_rem(x: int, y: int) -> int {
    if x >= 0 {
        sabs(x) % sabs(y)
    } else {
        -(sabs(x) % sabs(y))
    }
}

/// Whether `y` divides `x` exactly.
pub open spec fn exact_div(x: int, y: int) -> bool {
    sabs(x) % sabs(y) == 0
}

/// The exact quotient of `x` and `y`, when `y` divides `x`.
pub open spec fn div_q(x: int, y: int) -> int {
    if (x < 0) == (y < 0) {
        sabs(x) / sabs(y)
    } else {
        -(sabs(x) / sabs(y))
    }
}

/// Negation that wraps at the edge of the type.
pub open spec fn wrap_neg(i: i64) -> i64 {
    if i == i64::MIN {
        i64::MIN
    } else {
        (-i) as i64
    }
}

/// The magnitude of `i`.
pub fn abs_u64(i: i64) -> (r: u64)
    ensures
        r == sabs(i as int),
{
    if i >= 0 {
        i as u64
    } else if i == i64::MIN {
        9223372036854775808u64
    } else {
        (-i) as u64
    }
}

/// Remainder rounding toward zero.
pub fn rem_trunc(a: i64, b: i64) -> (r: i64)
    requires
        b != 0,
    ensures
        r as int == trunc_rem(a as int, b as int),
{
    let ua = abs_u64(a);
    let ub = abs_u64(b);
    let um = ua % ub;
    proof {
        assert(um < ub);
    }
    if a >= 0 {
        um as i64
    } else {
        -(um as i64)
    }
}

/// Both values have the same variant.
pub open spec fn same_variant(a: AtomV, b: AtomV) -> bool {
    match (a, b) {
        (AtomV::Str(_), AtomV::Str(_)) => true,
        (AtomV::Float(_), AtomV::Float(_)) => true,
        (AtomV::Int(_), AtomV::Int(_)) => true,
        (AtomV::Bool(_), AtomV::Bool(_)) => true,
        (AtomV::Array(_), AtomV::Array(_)) => true,
        (AtomV::Function(_), AtomV::Function(_)) => true,
        (AtomV::Break, AtomV::Break) => true,
        _ => false,
    }
}

/// The float value of an integer, computed by the arithmetic hook.
pub open spec fn fl_of_int(fa: spec_fn(FloatOp, u64, u64) -> u64, i: i64) -> u64 {
    fa(FloatOp::OfInt, i64_bits(i), 0)
}

/// `+` on values: numeric addition with Int-to-Float promotion, and
/// concatenation when either side is text (the other side formatted
/// textually).  Everything else is a `TypeMismatch`.
pub open spec fn atom_add(
    fa: spec_fn(FloatOp, u64, u64) -> u64,
    fp: spec_fn(u64) -> Seq<char>,
    a: AtomV,
    b: AtomV,
) -> Result<AtomV, Error> {
    match (a, b) {
        (AtomV::Str(x), AtomV::Str(y)) => Result::Ok(AtomV::Str(x + y)),
        (AtomV::Str(x), AtomV::Float(f)) => Result::Ok(AtomV::Str(x + fp(f))),
        (AtomV::Float(f), AtomV::Str(x)) => Result::Ok(AtomV::Str(fp(f) + x)),
        (AtomV::Str(x), AtomV::Int(i)) => Result::Ok(AtomV::Str(x + int_chars(i as int))),
        (AtomV::Int(i), AtomV::Str(x)) => Result::Ok(AtomV::Str(int_chars(i as int) + x)),
        (AtomV::Float(x), AtomV::Float(y)) => Result::Ok(AtomV::Float(fa(FloatOp::Add, x, y))),
        (AtomV::Int(i), AtomV::Float(y)) => Result::Ok(
            AtomV::Float(fa(FloatOp::Add, fl_of_int(fa, i), y)),
        ),
        (AtomV::Float(x), AtomV::Int(i)) => Result::Ok(
            AtomV::Float(fa(FloatOp::Add, x, fl_of_int(fa, i))),
        ),
        (AtomV::Int(x), AtomV::Int(y)) => Result::Ok(
            AtomV::Int(vstd::wrapping::i64_specs::wrapping_add(x, y)),
        ),
        _ => Result::Err(Error::TypeMismatch),
    }
}

/// `-` on values: numeric only, with Int-to-Float promotion.
pub open spec fn atom_sub(
    fa: spec_fn(FloatOp, u64, u64) -> u64,
    a: AtomV,
    b: AtomV,
) -> Result<AtomV, Error> {
    match (a, b) {
        (AtomV::Float(x), AtomV::Float(y)) => Result::Ok(AtomV::Float(fa(FloatOp::Sub, x, y))),
        (AtomV::Int(i), AtomV::Float(y)) => Result::Ok(
            AtomV::Float(fa(FloatOp::Sub, fl_of_int(fa, i), y)),
        ),
        (AtomV::Float(x), AtomV::Int(i)) => Result::Ok(
            AtomV::Float(fa(FloatOp::Sub, x, fl_of_int(fa, i))),
        ),
        (AtomV::Int(x), AtomV::Int(y)) => Result::Ok(
            AtomV::Int(vstd::wrapping::i64_specs::wrapping_sub(x, y)),
        ),
        _ => Result::Err(Error::TypeMismatch),
    }
}

/// `*` on values: numeric only, with Int-to-Float promotion.
pub open spec fn atom_mul(
    fa: spec_fn(FloatOp, u64, u64) -> u64,
    a: AtomV,
    b: AtomV,
) -> Result<AtomV, Error> {
    match (a, b) {
        (AtomV::Float(x), AtomV::Float(y)) => Result::Ok(AtomV::Float(fa(FloatOp::Mul, x, y))),
        (AtomV::Int(i), AtomV::Float(y)) => Result::Ok(
            AtomV::Float(fa(FloatOp::Mul, fl_of_int(fa, i), y)),
        ),
        (AtomV::Float(x), AtomV::Int(i)) => Result::Ok(
            AtomV::Float(fa(FloatOp::Mul, x, fl_of_int(fa, i))),
        ),
        (AtomV::Int(x), AtomV::Int(y)) => Result::Ok(
            AtomV::Int(vstd::wrapping::i64_specs::wrapping_mul(x, y)),
        ),
        _ => Result::Err(Error::TypeMismatch),
    }
}

/// `/` on values.  Integer division widens: two integers whose exact
/// real quotient is an integer that fits give that integer, and any
/// other pair gives the float quotient.
pub open spec fn atom_div(
    fa: spec_fn(FloatOp, u64, u64) -> u64,
    a: AtomV,
    b: AtomV,
) -> Result<AtomV, Error> {
    match (a, b) {
        (AtomV::Float(x), AtomV::Float(y)) => Result::Ok(AtomV::Float(fa(FloatOp::Div, x, y))),
        (AtomV::Int(i), AtomV::Float(y)) => Result::Ok(
            AtomV::Float(fa(FloatOp::Div, fl_of_int(fa, i), y)),
        ),
        (AtomV::Float(x), AtomV::Int(i)) => Result::Ok(
            AtomV::Float(fa(FloatOp::Div, x, fl_of_int(fa, i))),
        ),
        (AtomV::Int(x), AtomV::Int(y)) => {
            if y != 0 && !(x == i64::MIN && y == -1) && exact_div(x as int, y as int) {
                Result::Ok(AtomV::Int(div_q(x as int, y as int) as i64))
            } else {
                Result::Ok(AtomV::Float(fa(FloatOp::Div, fl_of_int(fa, x), fl_of_int(fa, y))))
            }
        },
        _ => Result::Err(Error::TypeMismatch),
    }
}

/// Unary `-`: numeric negation preserving the variant; anything but
/// a number is a `TypeMismatch`.
pub open spec fn atom_negate(fa: spec_fn(FloatOp, u64, u64) -> u64, a: AtomV) -> Result<
    AtomV,
    Error,
> {
    match a {
        AtomV::Float(x) => Result::Ok(AtomV::Float(fa(FloatOp::Neg, x, 0))),
        AtomV::Int(i) => Result::Ok(AtomV::Int(wrap_neg(i))),
        _ => Result::Err(Error::TypeMismatch),
    }
}

/// Unary `!`: boolean negation; anything but a boolean is a
/// `TypeMismatch`.
pub open spec fn atom_not(a: AtomV) -> Result<AtomV, Error> {
    match a {
        AtomV::Bool(b) => Result::Ok(AtomV::Bool(!b)),
        _ => Result::Err(Error::TypeMismatch),
    }
}

/// `%` on values: same-variant numeric remainder; an integer
/// remainder by zero is a `TypeMismatch`.
pub open spec fn atom_modulus(
    fa: spec_fn(FloatOp, u64, u64) -> u64,
    a: AtomV,
    b: AtomV,
) -> Result<AtomV, Error> {
    match (a, b) {
        (AtomV::Float(x), AtomV::Float(y)) => Result::Ok(AtomV::Float(fa(FloatOp::Rem, x, y))),
        (AtomV::Int(x), AtomV::Int(y)) => {
            if y == 0 {
                Result::Err(Error::TypeMismatch)
            } else {
                Result::Ok(AtomV::Int(trunc_rem(x as int, y as int) as i64))
            }
        },
        _ => Result::Err(Error::TypeMismatch),
    }
}

/// `&&` on values: booleans only.
pub open spec fn atom_and(a: AtomV, b: AtomV) -> Result<AtomV, Error> {
    match (a, b) {
        (AtomV::Bool(x), AtomV::Bool(y)) => Result::Ok(AtomV::Bool(x && y)),
        _ => Result::Err(Error::TypeMismatch),
    }
}

/// `||` on values: booleans only.
pub open spec fn atom_or(a: AtomV, b: AtomV) -> Result<AtomV, Error> {
    match (a, b) {
        (AtomV::Bool(x), AtomV::Bool(y)) => Result::Ok(AtomV::Bool(x || y)),
        _ => Result::Err(Error::TypeMismatch),
    }
}

/// Indexing: the collection must be an array and the index a
/// non-negative integer; an index at or past the end is
/// `IndexOutOfBounds`.
pub open spec fn atom_index(a: AtomV, b: AtomV) -> Result<AtomV, Error> {
    match (a, b) {
        (AtomV::Array(es), AtomV::Int(i)) => {
            if i < 0 {
                Result::Err(Error::TypeMismatch)
            } else if i < es.len() {
                Result::Ok(es[i as int])
            } else {
                Result::Err(Error::IndexOutOfBounds)
            }
        },
        _ => Result::Err(Error::TypeMismatch),
    }
}

/// `<` on values: numbers only, with Int-to-Float coercion.
pub open spec fn atom_lt(
    fa: spec_fn(FloatOp, u64, u64) -> u64,
    a: AtomV,
    b: AtomV,
) -> Result<AtomV, Error> {
    match (a, b) {
        (AtomV::Float(x), AtomV::Float(y)) => Result::Ok(
            AtomV::Bool(fa(FloatOp::Lt, x, y) != 0),
        ),
        (AtomV::Int(i), AtomV::Float(y)) => Result::Ok(
            AtomV::Bool(fa(FloatOp::Lt, fl_of_int(fa, i), y) != 0),
        ),
        (AtomV::Float(x), AtomV::Int(i)) => Result::Ok(
            AtomV::Bool(fa(FloatOp::Lt, x, fl_of_int(fa, i)) != 0),
        ),
        (AtomV::Int(x), AtomV::Int(y)) => Result::Ok(AtomV::Bool(x < y)),
        _ => Result::Err(Error::TypeMismatch),
    }
}

/// `>` on values: numbers only, with Int-to-Float coercion.
pub open spec fn atom_gt(
    fa: spec_fn(FloatOp, u64, u64) -> u64,
    a: AtomV,
    b: AtomV,
) -> Result<AtomV, Error> {
    match (a, b) {
        (AtomV::Float(x), AtomV::Float(y)) => Result::Ok(
            AtomV::Bool(fa(FloatOp::Gt, x, y) != 0),
        ),
        (AtomV::Int(i), AtomV::Float(y)) => Result::Ok(
            AtomV::Bool(fa(FloatOp::Gt, fl_of_int(fa, i), y) != 0),
        ),
        (AtomV::Float(x), AtomV::Int(i)) => Result::Ok(
            AtomV::Bool(fa(FloatOp::Gt, x, fl_of_int(fa, i)) != 0),
        ),
        (AtomV::Int(x), AtomV::Int(y)) => Result::Ok(AtomV::Bool(x > y)),
        _ => Result::Err(Error::TypeMismatch),
    }
}

/// `==` on values: same-variant pairs compare structurally, floats by
/// float equality; different variants are never equal, and two
/// function values are never equal.
pub open spec fn value_eq_v(fa: spec_fn(FloatOp, u64, u64) -> u64, a: AtomV, b: AtomV) -> bool
    decreases a, 1int,
{
    match (a, b) {
        (AtomV::Str(x), AtomV::Str(y)) => x == y,
        (AtomV::Float(x), AtomV::Float(y)) => fa(FloatOp::Eq, x, y) != 0,
        (AtomV::Int(x), AtomV::Int(y)) => x == y,
        (AtomV::Bool(x), AtomV::Bool(y)) => x == y,
        (AtomV::Array(x), AtomV::Array(y)) => values_eq_list(fa, x, y, 0),
        (AtomV::Break, AtomV::Break) => true,
        _ => false,
    }
}

pub open spec fn values_eq_list(
    fa: spec_fn(FloatOp, u64, u64) -> u64,
    x: Seq<AtomV>,
    y: Seq<AtomV>,
    i: int,
) -> bool
    decreases x, x.len() - i,
{
    if x.len() != y.len() {
        false
    } else if i < 0 || i >= x.len() {
        true
    } else {
        value_eq_v(fa, x[i], y[i]) && values_eq_list(fa, x, y, i + 1)
    }
}

/// Both values have the same variant.
pub fn same_variant_x(a: &Atom, b: &Atom) -> (r: bool)
    ensures
        r == same_variant(a@, b@),
{
    match (a, b) {
        (Atom::Str(_), Atom::Str(_)) => true,
        (Atom::Float(_), Atom::Float(_)) => true,
        (Atom::Int(_), Atom::Int(_)) => true,
        (Atom::Bool(_), Atom::Bool(_)) => true,
        (Atom::Array(_), Atom::Array(_)) => true,
        (Atom::Function(_), Atom::Function(_)) => true,
        (Atom::Break, Atom::Break) => true,
        _ => false,
    }
}

/// The two's-complement bits of `i`.
pub fn i64_bits_x(i: i64) -> (r: u64)
    ensures
        r == i64_bits(i),
{
    if i >= 0 {
        i as u64
    } else {
        ((i as i128) + 0x1_0000_0000_0000_0000i128) as u64
    }
}

/// The float value of `i`, computed by the arithmetic hook.
pub fn fl_of_int_x<FA: Fn(FloatOp, u64, u64) -> u64>(fa: &FA, i: i64) -> (r: u64)
    requires
        arith_callable(*fa),
    ensures
        forall|faa: spec_fn(FloatOp, u64, u64) -> u64|
            obeys_arith(*fa, faa) ==> r == fl_of_int(faa, i),
{
    let bits = i64_bits_x(i);
    fa(FloatOp::OfInt, bits, 0)
}

impl Atom {
    /// `+`: see [`atom_add`].
    pub fn add<FA: Fn(FloatOp, u64, u64) -> u64, FP: Fn(u64) -> Vec<char>>(
        &self,
        rhs: &Atom,
        fa: &FA,
        fp: &FP,
    ) -> (r: Result<Atom, Error>)
        requires
            arith_callable(*fa),
            print_callable(*fp),
        ensures
            forall|faa: spec_fn(FloatOp, u64, u64) -> u64, fpp: spec_fn(u64) -> Seq<char>|
                obeys_arith(*fa, faa) && obeys_print(*fp, fpp) ==> (match r {
                    Result::Ok(v) => atom_add(faa, fpp, self@, rhs@) == Result::Ok::<AtomV, Error>(
                        atom_view(v),
                    ),
                    Result::Err(e) => atom_add(faa, fpp, self@, rhs@) == Result::Err::<
                        AtomV,
                        Error,
                    >(e),
                }),
    {
        match (self, rhs) {
            (Atom::Str(x), Atom::Str(y)) => {
                let mut out = clone_chars(x);
                push_chars(&mut out, y);
                Result::Ok(Atom::Str(out))
            },
            (Atom::Str(x), Atom::Float(f)) => {
                let mut out = clone_chars(x);
                let fs = fp(*f);
                push_chars(&mut out, &fs);
                Result::Ok(Atom::Str(out))
            },
            (Atom::Float(f), Atom::Str(x)) => {
                let mut out = fp(*f);
                push_chars(&mut out, x);
                Result::Ok(Atom::Str(out))
            },
            (Atom::Str(x), Atom::Int(i)) => {
                let mut out = clone_chars(x);
                let is = i64_to_chars(*i);
                push_chars(&mut out, &is);
                Result::Ok(Atom::Str(out))
            },
            (Atom::Int(i), Atom::Str(x)) => {
                let mut out = i64_to_chars(*i);
                push_chars(&mut out, x);
                Result::Ok(Atom::Str(out))
            },
            (Atom::Float(x), Atom::Float(y)) => Result::Ok(Atom::Float(fa(FloatOp::Add, *x, *y))),
            (Atom::Int(i), Atom::Float(y)) => {
                let xb = fl_of_int_x(fa, *i);
                Result::Ok(Atom::Float(fa(FloatOp::Add, xb, *y)))
            },
            (Atom::Float(x), Atom::Int(i)) => {
                let yb = fl_of_int_x(fa, *i);
                Result::Ok(Atom::Float(fa(FloatOp::Add, *x, yb)))
            },
            (Atom::Int(x), Atom::Int(y)) => Result::Ok(Atom::Int(x.wrapping_add(*y))),
            _ => Result::Err(Error::TypeMismatch),
        }
    }

    /// `-`: see [`atom_sub`].
    pub fn sub<FA: Fn(FloatOp, u64, u64) -> u64>(&self, rhs: &Atom, fa: &FA) -> (r: Result<
        Atom,
        Error,
    >)
        requires
            arith_callable(*fa),
        ensures
            forall|faa: spec_fn(FloatOp, u64, u64) -> u64|
                obeys_arith(*fa, faa) ==> (match r {
                    Result::Ok(v) => atom_sub(faa, self@, rhs@) == Result::Ok::<AtomV, Error>(
                        atom_view(v),
                    ),
                    Result::Err(e) => atom_sub(faa, self@, rhs@) == Result::Err::<AtomV, Error>(e),
                }),
    {
        match (self, rhs) {
            (Atom::Float(x), Atom::Float(y)) => Result::Ok(Atom::Float(fa(FloatOp::Sub, *x, *y))),
            (Atom::Int(i), Atom::Float(y)) => {
                let xb = fl_of_int_x(fa, *i);
                Result::Ok(Atom::Float(fa(FloatOp::Sub, xb, *y)))
            },
            (Atom::Float(x), Atom::Int(i)) => {
                let yb = fl_of_int_x(fa, *i);
                Result::Ok(Atom::Float(fa(FloatOp::Sub, *x, yb)))
            },
            (Atom::Int(x), Atom::Int(y)) => Result::Ok(Atom::Int(x.wrapping_sub(*y))),
            _ => Result::Err(Error::TypeMismatch),
        }
    }

    /// `*`: see [`atom_mul`].
    pub fn mul<FA: Fn(FloatOp, u64, u64) -> u64>(&self, rhs: &Atom, fa: &FA) -> (r: Result<
        Atom,
        Error,
    >)
        requires
            arith_callable(*fa),
        ensures
            forall|faa: spec_fn(FloatOp, u64, u64) -> u64|
                obeys_arith(*fa, faa) ==> (match r {
                    Result::Ok(v) => atom_mul(faa, self@, rhs@) == Result::Ok::<AtomV, Error>(
                        atom_view(v),
                    ),
                    Result::Err(e) => atom_mul(faa, self@, rhs@) == Result::Err::<AtomV, Error>(e),
                }),
    {
        match (self, rhs) {
            (Atom::Float(x), Atom::Float(y)) => Result::Ok(Atom::Float(fa(FloatOp::Mul, *x, *y))),
            (Atom::Int(i), Atom::Float(y)) => {
                let xb = fl_of_int_x(fa, *i);
                Result::Ok(Atom::Float(fa(FloatOp::Mul, xb, *y)))
            },
            (Atom::Float(x), Atom::Int(i)) => {
                let yb = fl_of_int_x(fa, *i);
                Result::Ok(Atom::Float(fa(FloatOp::Mul, *x, yb)))
            },
            (Atom::Int(x), Atom::Int(y)) => Result::Ok(Atom::Int(x.wrapping_mul(*y))),
            _ => Result::Err(Error::TypeMismatch),
        }
    }

    /// `/`: see [`atom_div`].  Integer division widens to a float
    /// exactly when the real quotient is no integer of the type.
    pub fn div<FA: Fn(FloatOp, u64, u64) -> u64>(&self, rhs: &Atom, fa: &FA) -> (r: Result<
        Atom,
        Error,
    >)
        requires
            arith_callable(*fa),
        ensures
            forall|faa: spec_fn(FloatOp, u64, u64) -> u64|
                obeys_arith(*fa, faa) ==> (match r {
                    Result::Ok(v) => atom_div(faa, self@, rhs@) == Result::Ok::<AtomV, Error>(
                        atom_view(v),
                    ),
                    Result::Err(e) => atom_div(faa, self@, rhs@) == Result::Err::<AtomV, Error>(e),
                }),
    {
        match (self, rhs) {
            (Atom::Float(x), Atom::Float(y)) => Result::Ok(Atom::Float(fa(FloatOp::Div, *x, *y))),
            (Atom::Int(i), Atom::Float(y)) => {
                let xb = fl_of_int_x(fa, *i);
                Result::Ok(Atom::Float(fa(FloatOp::Div, xb, *y)))
            },
            (Atom::Float(x), Atom::Int(i)) => {
                let yb = fl_of_int_x(fa, *i);
                Result::Ok(Atom::Float(fa(FloatOp::Div, *x, yb)))
            },
            (Atom::Int(x), Atom::Int(y)) => {
                if *y != 0 && !(*x == i64::MIN && *y == -1) {
                    let ua = abs_u64(*x);
                    let ub = abs_u64(*y);
                    let um = ua % ub;
                    if um == 0 {
                        let uq = ua / ub;
                        proof {
                            if ub >= 2 {
                                vstd::arithmetic::div_mod::lemma_div_is_ordered_by_denominator(
                                    ua as int,
                                    2,
                                    ub as int,
                                );
                            }
                        }
                        let q: i64 = if (*x < 0) == (*y < 0) {
                            uq as i64
                        } else if uq == 9223372036854775808u64 {
                            i64::MIN
                        } else {
                            -(uq as i64)
                        };
                        return Result::Ok(Atom::Int(q));
                    }
                    let xb = fl_of_int_x(fa, *x);
                    let yb = fl_of_int_x(fa, *y);
                    return Result::Ok(Atom::Float(fa(FloatOp::Div, xb, yb)));
                }
                let xb = fl_of_int_x(fa, *x);
                let yb = fl_of_int_x(fa, *y);
                Result::Ok(Atom::Float(fa(FloatOp::Div, xb, yb)))
            },
            _ => Result::Err(Error::TypeMismatch),
        }
    }

    /// Unary `-`, numeric negation: see [`atom_negate`].
    pub fn negate<FA: Fn(FloatOp, u64, u64) -> u64>(&self, fa: &FA) -> (r: Result<Atom, Error>)
        requires
            arith_callable(*fa),
        ensures
            forall|faa: spec_fn(FloatOp, u64, u64) -> u64|
                obeys_arith(*fa, faa) ==> (match r {
                    Result::Ok(v) => atom_negate(faa, self@) == Result::Ok::<AtomV, Error>(
                        atom_view(v),
                    ),
                    Result::Err(e) => atom_negate(faa, self@) == Result::Err::<AtomV, Error>(e),
                }),
    {
        match self {
            Atom::Float(x) => Result::Ok(Atom::Float(fa(FloatOp::Neg, *x, 0))),
            Atom::Int(i) => {
                if *i == i64::MIN {
                    Result::Ok(Atom::Int(i64::MIN))
                } else {
                    Result::Ok(Atom::Int(-*i))
                }
            },
            _ => Result::Err(Error::TypeMismatch),
        }
    }

    /// Unary `!`, boolean negation: see [`atom_not`].
    pub fn bool_not(&self) -> (r: Result<Atom, Error>)
        ensures
            match r {
                Result::Ok(v) => atom_not(self@) == Result::Ok::<AtomV, Error>(atom_view(v)),
                Result::Err(e) => atom_not(self@) == Result::Err::<AtomV, Error>(e),
            },
    {
        match self {
            Atom::Bool(b) => Result::Ok(Atom::Bool(!*b)),
            _ => Result::Err(Error::TypeMismatch),
        }
    }

    /// `%`: see [`atom_modulus`].
    pub fn modulus<FA: Fn(FloatOp, u64, u64) -> u64>(&self, rhs: &Atom, fa: &FA) -> (r: Result<
        Atom,
        Error,
    >)
        requires
            arith_callable(*fa),
        ensures
            forall|faa: spec_fn(FloatOp, u64, u64) -> u64|
                obeys_arith(*fa, faa) ==> (match r {
                    Result::Ok(v) => atom_modulus(faa, self@, rhs@) == Result::Ok::<AtomV, Error>(
                        atom_view(v),
                    ),
                    Result::Err(e) => atom_modulus(faa, self@, rhs@) == Result::Err::<
                        AtomV,
                        Error,
                    >(e),
                }),
    {
        match (self, rhs) {
            (Atom::Float(x), Atom::Float(y)) => Result::Ok(Atom::Float(fa(FloatOp::Rem, *x, *y))),
            (Atom::Int(x), Atom::Int(y)) => {
                if *y == 0 {
                    Result::Err(Error::TypeMismatch)
                } else {
                    Result::Ok(Atom::Int(rem_trunc(*x, *y)))
                }
            },
            _ => Result::Err(Error::TypeMismatch),
        }
    }

    /// `&&`: see [`atom_and`].
    pub fn and(&self, rhs: &Atom) -> (r: Result<Atom, Error>)
        ensures
            match r {
                Result::Ok(v) => atom_and(self@, rhs@) == Result::Ok::<AtomV, Error>(atom_view(v)),
                Result::Err(e) => atom_and(self@, rhs@) == Result::Err::<AtomV, Error>(e),
            },
    {
        match (self, rhs) {
            (Atom::Bool(x), Atom::Bool(y)) => Result::Ok(Atom::Bool(*x && *y)),
            _ => Result::Err(Error::TypeMismatch),
        }
    }

    /// `||`: see [`atom_or`].
    pub fn or(&self, rhs: &Atom) -> (r: Result<Atom, Error>)
        ensures
            match r {
                Result::Ok(v) => atom_or(self@, rhs@) == Result::Ok::<AtomV, Error>(atom_view(v)),
                Result::Err(e) => atom_or(self@, rhs@) == Result::Err::<AtomV, Error>(e),
            },
    {
        match (self, rhs) {
            (Atom::Bool(x), Atom::Bool(y)) => Result::Ok(Atom::Bool(*x || *y)),
            _ => Result::Err(Error::TypeMismatch),
        }
    }

    /// Indexing: see [`atom_index`].
    pub fn index(&self, rhs: &Atom) -> (r: Result<Atom, Error>)
        ensures
            match r {
                Result::Ok(v) => atom_index(self@, rhs@) == Result::Ok::<AtomV, Error>(
                    atom_view(v),
                ),
                Result::Err(e) => atom_index(self@, rhs@) == Result::Err::<AtomV, Error>(e),
            },
    {
        match (self, rhs) {
            (Atom::Array(es), Atom::Int(i)) => {
                if *i < 0 {
                    Result::Err(Error::TypeMismatch)
                } else {
                    proof {
                        lemma_atoms_view_len(es@);
                    }
                    let iu = *i as u64;
                    if iu < es.len() as u64 {
                        let idx = iu as usize;
                        proof {
                            lemma_atoms_view_index(es@, idx as int);
                        }
                        Result::Ok(clone_atom(&es[idx]))
                    } else {
                        Result::Err(Error::IndexOutOfBounds)
                    }
                }
            },
            _ => Result::Err(Error::TypeMismatch),
        }
    }

    /// Member access is parsed but has no defined meaning; evaluating
    /// it always fails.
    pub fn access(&self, _rhs: &S) -> (r: Result<Atom, Error>)
        ensures
            r == Result::Err::<Atom, Error>(Error::TypeMismatch),
    {
        Result::Err(Error::TypeMismatch)
    }

    /// `<`: see [`atom_lt`].
    pub fn lt<FA: Fn(FloatOp, u64, u64) -> u64>(&self, rhs: &Atom, fa: &FA) -> (r: Result<
        Atom,
        Error,
    >)
        requires
            arith_callable(*fa),
        ensures
            forall|faa: spec_fn(FloatOp, u64, u64) -> u64|
                obeys_arith(*fa, faa) ==> (match r {
                    Result::Ok(v) => atom_lt(faa, self@, rhs@) == Result::Ok::<AtomV, Error>(
                        atom_view(v),
                    ),
                    Result::Err(e) => atom_lt(faa, self@, rhs@) == Result::Err::<AtomV, Error>(e),
                }),
    {
        match (self, rhs) {
            (Atom::Float(x), Atom::Float(y)) => Result::Ok(
                Atom::Bool(fa(FloatOp::Lt, *x, *y) != 0),
            ),
            (Atom::Int(i), Atom::Float(y)) => {
                let xb = fl_of_int_x(fa, *i);
                Result::Ok(Atom::Bool(fa(FloatOp::Lt, xb, *y) != 0))
            },
            (Atom::Float(x), Atom::Int(i)) => {
                let yb = fl_of_int_x(fa, *i);
                Result::Ok(Atom::Bool(fa(FloatOp::Lt, *x, yb) != 0))
            },
            (Atom::Int(x), Atom::Int(y)) => Result::Ok(Atom::Bool(*x < *y)),
            _ => Result::Err(Error::TypeMismatch),
        }
    }

    /// `>`: see [`atom_gt`].
    pub fn gt<FA: Fn(FloatOp, u64, u64) -> u64>(&self, rhs: &Atom, fa: &FA) -> (r: Result<
        Atom,
        Error,
    >)
        requires
            arith_callable(*fa),
        ensures
            forall|faa: spec_fn(FloatOp, u64, u64) -> u64|
                obeys_arith(*fa, faa) ==> (match r {
                    Result::Ok(v) => atom_gt(faa, self@, rhs@) == Result::Ok::<AtomV, Error>(
                        atom_view(v),
                    ),
                    Result::Err(e) => atom_gt(faa, self@, rhs@) == Result::Err::<AtomV, Error>(e),
                }),
    {
        match (self, rhs) {
            (Atom::Float(x), Atom::Float(y)) => Result::Ok(
                Atom::Bool(fa(FloatOp::Gt, *x, *y) != 0),
            ),
            (Atom::Int(i), Atom::Float(y)) => {
                let xb = fl_of_int_x(fa, *i);
                Result::Ok(Atom::Bool(fa(FloatOp::Gt, xb, *y) != 0))
            },
            (Atom::Float(x), Atom::Int(i)) => {
                let yb = fl_of_int_x(fa, *i);
                Result::Ok(Atom::Bool(fa(FloatOp::Gt, *x, yb) != 0))
            },
            (Atom::Int(x), Atom::Int(y)) => Result::Ok(Atom::Bool(*x > *y)),
            _ => Result::Err(Error::TypeMismatch),
        }
    }
}

/// The language's `==` on values: see [`value_eq_v`].
pub fn value_eq<FA: Fn(FloatOp, u64, u64) -> u64>(a: &Atom, b: &Atom, fa: &FA) -> (r: bool)
    requires
        arith_callable(*fa),
    ensures
        forall|faa: spec_fn(FloatOp, u64, u64) -> u64|
            obeys_arith(*fa, faa) ==> r == value_eq_v(faa, a@, b@),
    decreases *a, 1int,
{
    match (a, b) {
        (Atom::Str(x), Atom::Str(y)) => chars_eq(x, y),
        (Atom::Float(x), Atom::Float(y)) => {
            let c = fa(FloatOp::Eq, *x, *y);
            c != 0
        },
        (Atom::Int(x), Atom::Int(y)) => *x == *y,
        (Atom::Bool(x), Atom::Bool(y)) => *x == *y,
        (Atom::Array(x), Atom::Array(y)) => {
            proof {
                assert(decreases_to!(*a => *x));
            }
            values_eq_from(x, y, 0, fa)
        },
        (Atom::Break, Atom::Break) => true,
        _ => false,
    }
}

fn values_eq_from<FA: Fn(FloatOp, u64, u64) -> u64>(
    x: &Vec<Atom>,
    y: &Vec<Atom>,
    i: usize,
    fa: &FA,
) -> (r: bool)
    requires
        arith_callable(*fa),
        i <= x@.len(),
    ensures
        forall|faa: spec_fn(FloatOp, u64, u64) -> u64|
            obeys_arith(*fa, faa) ==> r == values_eq_list(
                faa,
                atoms_view(x@),
                atoms_view(y@),
                i as int,
            ),
    decreases *x, x@.len() - i,
{
    proof {
        lemma_atoms_view_len(x@);
        lemma_atoms_view_len(y@);
    }
    if x.len() != y.len() {
        return false;
    }
    if i >= x.len() {
        return true;
    }
    proof {
        assert(decreases_to!(*x => x@[i as int]));
        lemma_atoms_view_index(x@, i as int);
        lemma_atoms_view_index(y@, i as int);
    }
    let e = value_eq(&x[i], &y[i], fa);
    if !e {
        return false;
    }
    values_eq_from(x, y, i + 1, fa)
}

/// Structural equality of values: same variant with equal contents,
/// floats compared by bit pattern, function values never equal.
/// This is the representation equality tests use; the language's
/// `==` is [`value_eq_v`].
pub open spec fn atom_heq(a: AtomV, b: AtomV) -> bool
    decreases a, 1int,
{
    match (a, b) {
        (AtomV::Str(x), AtomV::Str(y)) => x == y,
        (AtomV::Float(x), AtomV::Float(y)) => x == y,
        (AtomV::Int(x), AtomV::Int(y)) => x == y,
        (AtomV::Bool(x), AtomV::Bool(y)) => x == y,
        (AtomV::Array(x), AtomV::Array(y)) => atoms_heq_list(x, y, 0),
        (AtomV::Break, AtomV::Break) => true,
        _ => false,
    }
}

pub open spec fn atoms_heq_list(x: Seq<AtomV>, y: Seq<AtomV>, i: int) -> bool
    decreases x, x.len() - i,
{
    if x.len() != y.len() {
        false
    } else if i < 0 || i >= x.len() {
        true
    } else {
        atom_heq(x[i], y[i]) && atoms_heq_list(x, y, i + 1)
    }
}

/// Structural equality of values: see [`atom_heq`].
pub fn atom_eq_x(a: &Atom, b: &Atom) -> (r: bool)
    ensures
        r == atom_heq(a@, b@),
    decreases *a, 1int,
{
    match (a, b) {
        (Atom::Str(x), Atom::Str(y)) => chars_eq(x, y),
        (Atom::Float(x), Atom::Float(y)) => *x == *y,
        (Atom::Int(x), Atom::Int(y)) => *x == *y,
        (Atom::Bool(x), Atom::Bool(y)) => *x == *y,
        (Atom::Array(x), Atom::Array(y)) => {
            proof {
                assert(decreases_to!(*a => *x));
            }
            atoms_heq_from(x, y, 0)
        },
        (Atom::Break, Atom::Break) => true,
        _ => false,
    }
}

fn atoms_heq_from(x: &Vec<Atom>, y: &Vec<Atom>, i: usize) -> (r: bool)
    requires
        i <= x@.len(),
    ensures
        r == atoms_heq_list(atoms_view(x@), atoms_view(y@), i as int),
    decreases *x, x@.len() - i,
{
    proof {
        lemma_atoms_view_len(x@);
        lemma_atoms_view_len(y@);
    }
    if x.len() != y.len() {
        return false;
    }
    if i >= x.len() {
        return true;
    }
    proof {
        assert(decreases_to!(*x => x@[i as int]));
        lemma_atoms_view_index(x@, i as int);
        lemma_atoms_view_index(y@, i as int);
    }
    let e = atom_eq_x(&x[i], &y[i]);
    if !e {
        return false;
    }
    atoms_heq_from(x, y, i + 1)
}

impl PartialEq for Atom {
    fn eq(&self, other: &Atom) -> (r: bool) {
        atom_eq_x(self, other)
    }
}

impl vstd::std_specs::cmp::PartialEqSpecImpl for Atom {
    open spec fn obeys_eq_spec() -> bool {
        true
    }

    open spec fn eq_spec(&self, other: &Atom) -> bool {
        atom_heq(atom_view(*self), atom_view(*other))
    }
}

} // verus!
