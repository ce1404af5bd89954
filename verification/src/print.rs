//! The textual form of values and expression trees.
//!
//! Values print as the evaluator's `print` statement writes them;
//! expression trees print in fully parenthesized prefix form, one
//! parenthesized group per operator.  Float formatting is delegated
//! to the caller's formatting hook.
use vstd::prelude::*;

use crate::atom::{Atom, AtomV, atom_view, atoms_view, lemma_atoms_view_index};
use crate::atom::fncall_view;
use crate::parser::{lemma_ss_view_index, s_view, ss_view, Op, S, SV};
use crate::text::{chars_to_string, int_chars, i64_to_chars, push_chars};
use crate::{obeys_print, print_callable};

verus! {

/// The symbol of an operator.
pub open spec fn op_str(op: Op) -> Seq<char> {
    match op {
        Op::Negate => seq!['!'],
        Op::Plus => seq!['+'],
        Op::PlusAssign => seq!['+', '='],
        Op::Minus => seq!['-'],
        Op::MinusAssign => seq!['-', '='],
        Op::Multiply => seq!['*'],
        Op::Divide => seq!['/'],
        Op::Less => seq!['<'],
        Op::Equal => seq!['=', '='],
        Op::Greater => seq!['>'],
        Op::NotEqual => seq!['!', '='],
        Op::Mod => seq!['%'],
        Op::And => seq!['&', '&'],
        Op::Or => seq!['|', '|'],
        Op::Indexing => seq!['[', ']'],
        Op::Access => seq!['a', 'c', 'c', 'e', 's', 's'],
    }
}

/// The textual form of a value.  `fp` formats float bit patterns.
pub open spec fn atom_str(fp: spec_fn(u64) -> Seq<char>, a: AtomV) -> Seq<char>
    decreases a, 1int,
{
    match a {
        AtomV::Str(s) => s,
        AtomV::Float(b) => fp(b),
        AtomV::Int(i) => int_chars(i as int),
        AtomV::Bool(b) => if b {
            seq!['t', 'r', 'u', 'e']
        } else {
            seq!['f', 'a', 'l', 's', 'e']
        },
        AtomV::Array(es) => seq!['['] + atoms_join(fp, es, 0) + seq![']'],
        AtomV::Function(_) => seq!['f', 'n'],
        AtomV::Break => seq!['B', 'r', 'e', 'a', 'k'],
    }
}

/// The elements from position `i` on, separated by `", "`.
pub open spec fn atoms_join(fp: spec_fn(u64) -> Seq<char>, s: Seq<AtomV>, i: int) -> Seq<char>
    decreases s, s.len() - i,
{
    if i < 0 || i >= s.len() {
        Seq::empty()
    } else if i == s.len() - 1 {
        atom_str(fp, s[i])
    } else {
        atom_str(fp, s[i]) + seq![',', ' '] + atoms_join(fp, s, i + 1)
    }
}

/// The fully parenthesized prefix form of an expression tree.
pub open spec fn s_str(fp: spec_fn(u64) -> Seq<char>, e: SV) -> Seq<char>
    decreases e, 1int,
{
    match e {
        SV::Atom(a) => atom_str(fp, a),
        SV::Identifier(n) => n,
        SV::FnCall(fc) => fc.name + seq!['('] + ss_join(fp, fc.args, 0) + seq![')'],
        SV::ArrayLit(es) => seq!['['] + ss_join(fp, es, 0) + seq![']'],
        SV::Unary(op, x) => seq!['('] + op_str(op) + seq![' '] + s_str(fp, *x) + seq![')'],
        SV::Binary(op, x, y) => seq!['('] + op_str(op) + seq![' '] + s_str(fp, *x) + seq![' ']
            + s_str(fp, *y) + seq![')'],
    }
}

/// The subexpressions from position `i` on, separated by `", "`.
pub open spec fn ss_join(fp: spec_fn(u64) -> Seq<char>, s: Seq<SV>, i: int) -> Seq<char>
    decreases s, s.len() - i,
{
    if i < 0 || i >= s.len() {
        Seq::empty()
    } else if i == s.len() - 1 {
        s_str(fp, s[i])
    } else {
        s_str(fp, s[i]) + seq![',', ' '] + ss_join(fp, s, i + 1)
    }
}

/// The symbol of an operator.
pub fn op_chars(op: &Op) -> (r: Vec<char>)
    ensures
        r@ == op_str(*op),
{
    let r: Vec<char> = match op {
        Op::Negate => vec!['!'],
        Op::Plus => vec!['+'],
        Op::PlusAssign => vec!['+', '='],
        Op::Minus => vec!['-'],
        Op::MinusAssign => vec!['-', '='],
        Op::Multiply => vec!['*'],
        Op::Divide => vec!['/'],
        Op::Less => vec!['<'],
        Op::Equal => vec!['=', '='],
        Op::Greater => vec!['>'],
        Op::NotEqual => vec!['!', '='],
        Op::Mod => vec!['%'],
        Op::And => vec!['&', '&'],
        Op::Or => vec!['|', '|'],
        Op::Indexing => vec!['[', ']'],
        Op::Access => vec!['a', 'c', 'c', 'e', 's', 's'],
    };
    proof {
        assert(r@ =~= op_str(*op));
    }
    r
}

/// The textual form of a value.
pub fn atom_to_chars<FP: Fn(u64) -> Vec<char>>(a: &Atom, fp: &FP) -> (r: Vec<char>)
    requires
        print_callable(*fp),
    ensures
        forall|fpp: spec_fn(u64) -> Seq<char>|
            obeys_print(*fp, fpp) ==> r@ == atom_str(fpp, atom_view(*a)),
    decreases *a, 1int,
{
    match a {
        Atom::Str(s) => crate::text::clone_chars(s),
        Atom::Float(b) => {
            let r = fp(*b);
            r
        },
        Atom::Int(i) => i64_to_chars(*i),
        Atom::Bool(b) => {
            let r: Vec<char> = if *b {
                vec!['t', 'r', 'u', 'e']
            } else {
                vec!['f', 'a', 'l', 's', 'e']
            };
            proof {
                if *b {
                    assert(r@ =~= seq!['t', 'r', 'u', 'e']);
                } else {
                    assert(r@ =~= seq!['f', 'a', 'l', 's', 'e']);
                }
            }
            r
        },
        Atom::Array(es) => {
            proof {
                assert(decreases_to!(*a => *es));
            }
            let mut out: Vec<char> = vec!['['];
            proof {
                assert(out@ =~= seq!['[']);
            }
            let inner = atoms_join_chars(es, 0, fp);
            push_chars(&mut out, &inner);
            out.push(']');
            proof {
                assert forall|fpp: spec_fn(u64) -> Seq<char>| obeys_print(*fp, fpp) implies out@
                    == atom_str(fpp, atom_view(*a)) by {
                    crate::atom::lemma_atoms_view_len(es@);
                    assert(out@ =~= seq!['['] + atoms_join(fpp, atoms_view(es@), 0) + seq![']']);
                }
            }
            return out;
        },
        Atom::Function(_) => {
            let r: Vec<char> = vec!['f', 'n'];
            proof {
                assert(r@ =~= seq!['f', 'n']);
            }
            r
        },
        Atom::Break => {
            let r: Vec<char> = vec!['B', 'r', 'e', 'a', 'k'];
            proof {
                assert(r@ =~= seq!['B', 'r', 'e', 'a', 'k']);
            }
            r
        },
    }
}

/// The elements of `es` from position `i` on, separated by `", "`.
fn atoms_join_chars<FP: Fn(u64) -> Vec<char>>(es: &Vec<Atom>, i: usize, fp: &FP) -> (r: Vec<char>)
    requires
        print_callable(*fp),
        i <= es@.len(),
    ensures
        forall|fpp: spec_fn(u64) -> Seq<char>|
            obeys_print(*fp, fpp) ==> r@ == atoms_join(fpp, atoms_view(es@), i as int),
    decreases *es, es@.len() - i,
{
    proof {
        crate::atom::lemma_atoms_view_len(es@);
    }
    if i >= es.len() {
        let r: Vec<char> = Vec::new();
        proof {
            assert(r@ =~= Seq::<char>::empty());
        }
        return r;
    }
    proof {
        assert(decreases_to!(*es => es@[i as int]));
        lemma_atoms_view_index(es@, i as int);
    }
    let mut out = atom_to_chars(&es[i], fp);
    if i == es.len() - 1 {
        return out;
    }
    out.push(',');
    out.push(' ');
    let ghost mid = out@;
    let rest = atoms_join_chars(es, i + 1, fp);
    push_chars(&mut out, &rest);
    proof {
        assert forall|fpp: spec_fn(u64) -> Seq<char>| obeys_print(*fp, fpp) implies out@
            == atoms_join(fpp, atoms_view(es@), i as int) by {
            assert(mid =~= atom_str(fpp, atoms_view(es@)[i as int]) + seq![',', ' ']);
            assert(out@ =~= atom_str(fpp, atoms_view(es@)[i as int]) + seq![',', ' ']
                + atoms_join(fpp, atoms_view(es@), i as int + 1));
        }
    }
    out
}

/// The fully parenthesized prefix form of an expression tree.
pub fn print_s<FP: Fn(u64) -> Vec<char>>(e: &S, fp: &FP) -> (r: Vec<char>)
    requires
        print_callable(*fp),
    ensures
        forall|fpp: spec_fn(u64) -> Seq<char>|
            obeys_print(*fp, fpp) ==> r@ == s_str(fpp, s_view(*e)),
    decreases *e, 1int,
{
    match e {
        S::Atom(a) => {
            proof {
                assert(decreases_to!(*e => *a));
            }
            atom_to_chars(a, fp)
        },
        S::Identifier(n) => crate::text::clone_chars(n),
        S::FnCall(fc) => {
            proof {
                assert(decreases_to!(*e => *fc));
                assert(decreases_to!(*fc => fc.args));
            }
            let mut out = crate::text::clone_chars(&fc.name);
            out.push('(');
            let ghost mid = out@;
            let inner = ss_join_chars(&fc.args, 0, fp);
            push_chars(&mut out, &inner);
            out.push(')');
            proof {
                assert(fncall_view(*fc) == (crate::atom::FunctionCallV {
                    name: fc.name@,
                    args: ss_view(fc.args@),
                }));
                assert(s_view(*e) == SV::FnCall(fncall_view(*fc)));
                assert forall|fpp: spec_fn(u64) -> Seq<char>| obeys_print(*fp, fpp) implies out@
                    == s_str(fpp, s_view(*e)) by {
                    assert(mid =~= fc.name@ + seq!['(']);
                    assert(s_str(fpp, s_view(*e)) == fc.name@ + seq!['('] + ss_join(
                        fpp,
                        ss_view(fc.args@),
                        0,
                    ) + seq![')']);
                    assert(out@ =~= fc.name@ + seq!['('] + ss_join(fpp, ss_view(fc.args@), 0)
                        + seq![')']);
                }
            }
            out
        },
        S::ArrayLit(es) => {
            proof {
                assert(decreases_to!(*e => *es));
            }
            let mut out: Vec<char> = vec!['['];
            proof {
                assert(out@ =~= seq!['[']);
            }
            let inner = ss_join_chars(es, 0, fp);
            push_chars(&mut out, &inner);
            out.push(']');
            proof {
                assert forall|fpp: spec_fn(u64) -> Seq<char>| obeys_print(*fp, fpp) implies out@
                    == s_str(fpp, s_view(*e)) by {
                    assert(out@ =~= seq!['['] + ss_join(fpp, ss_view(es@), 0) + seq![']']);
                }
            }
            out
        },
        S::Unary(op, x) => {
            proof {
                assert(decreases_to!(*e => **x));
            }
            let mut out: Vec<char> = vec!['('];
            proof {
                assert(out@ =~= seq!['(']);
            }
            let ops = op_chars(op);
            push_chars(&mut out, &ops);
            out.push(' ');
            let ghost mid = out@;
            let xs = print_s(x, fp);
            push_chars(&mut out, &xs);
            out.push(')');
            proof {
                assert forall|fpp: spec_fn(u64) -> Seq<char>| obeys_print(*fp, fpp) implies out@
                    == s_str(fpp, s_view(*e)) by {
                    assert(mid =~= seq!['('] + op_str(*op) + seq![' ']);
                    assert(out@ =~= seq!['('] + op_str(*op) + seq![' '] + s_str(fpp, s_view(**x))
                        + seq![')']);
                }
            }
            out
        },
        S::Binary(op, x, y) => {
            proof {
                assert(decreases_to!(*e => **x));
                assert(decreases_to!(*e => **y));
            }
            let mut out: Vec<char> = vec!['('];
            proof {
                assert(out@ =~= seq!['(']);
            }
            let ops = op_chars(op);
            push_chars(&mut out, &ops);
            out.push(' ');
            let xs = print_s(x, fp);
            push_chars(&mut out, &xs);
            out.push(' ');
            let ghost mid = out@;
            let ys = print_s(y, fp);
            push_chars(&mut out, &ys);
            out.push(')');
            proof {
                assert forall|fpp: spec_fn(u64) -> Seq<char>| obeys_print(*fp, fpp) implies out@
                    == s_str(fpp, s_view(*e)) by {
                    assert(mid =~= seq!['('] + op_str(*op) + seq![' '] + s_str(fpp, s_view(**x))
                        + seq![' ']);
                    assert(out@ =~= seq!['('] + op_str(*op) + seq![' '] + s_str(fpp, s_view(**x))
                        + seq![' '] + s_str(fpp, s_view(**y)) + seq![')']);
                }
            }
            out
        },
    }
}

/// The subexpressions of `es` from position `i` on, separated by
/// `", "`.
fn ss_join_chars<FP: Fn(u64) -> Vec<char>>(es: &Vec<S>, i: usize, fp: &FP) -> (r: Vec<char>)
    requires
        print_callable(*fp),
        i <= es@.len(),
    ensures
        forall|fpp: spec_fn(u64) -> Seq<char>|
            obeys_print(*fp, fpp) ==> r@ == ss_join(fpp, ss_view(es@), i as int),
    decreases *es, es@.len() - i,
{
    proof {
        crate::parser::lemma_ss_view_len(es@);
    }
    if i >= es.len() {
        let r: Vec<char> = Vec::new();
        proof {
            assert(r@ =~= Seq::<char>::empty());
        }
        return r;
    }
    proof {
        assert(decreases_to!(*es => es@[i as int]));
        lemma_ss_view_index(es@, i as int);
    }
    let mut out = print_s(&es[i], fp);
    if i == es.len() - 1 {
        return out;
    }
    out.push(',');
    out.push(' ');
    let ghost mid = out@;
    let rest = ss_join_chars(es, i + 1, fp);
    push_chars(&mut out, &rest);
    proof {
        assert forall|fpp: spec_fn(u64) -> Seq<char>| obeys_print(*fp, fpp) implies out@
            == ss_join(fpp, ss_view(es@), i as int) by {
            assert(mid =~= s_str(fpp, ss_view(es@)[i as int]) + seq![',', ' ']);
            assert(out@ =~= s_str(fpp, ss_view(es@)[i as int]) + seq![',', ' ']
                + ss_join(fpp, ss_view(es@), i as int + 1));
        }
    }
    out
}

/// The fully parenthesized prefix form of an expression tree, as a
/// `String`.
pub fn s_to_string<FP: Fn(u64) -> Vec<char>>(e: &S, fp: &FP) -> (r: String)
    requires
        print_callable(*fp),
    ensures
        forall|fpp: spec_fn(u64) -> Seq<char>|
            obeys_print(*fp, fpp) ==> r@ == s_str(fpp, s_view(*e)),
{
    let v = print_s(e, fp);
    chars_to_string(&v)
}

} // verus!
