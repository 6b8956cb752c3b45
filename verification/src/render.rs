//! Canonical printing: turn a tree back into source text. Leaves print
//! their own bytes out of the original source; grouping prints braces, so
//! that the printed form scans and parses again. The specification
//! functions `render_expr_spec` and `render_statement_spec` pin the output
//! down byte for byte.

use vstd::prelude::*;

use crate::ast::{lemma_trees_view, trees_view, tree_view, Atom, Op, Tree, TreeV};
use crate::token::Span;

verus! {

/// The bytes of `code` under the span, or nothing when the span does not
/// lie inside `code`.
pub open spec fn clamp_slice_spec(code: Seq<u8>, span: Span) -> Seq<u8> {
    if span.start <= span.end && span.end <= code.len() {
        code.subrange(span.start as int, span.end as int)
    } else {
        Seq::empty()
    }
}

/// The text of an operator that can stand in an expression; operators that
/// only label statements have no text of their own here.
pub open spec fn op_text_spec(op: Op) -> Seq<u8> {
    match op {
        Op::Minus => seq![45u8],  // -
        Op::Plus => seq![43u8],  // +
        Op::Star => seq![42u8],  // *
        Op::Slash => seq![47u8],  // /
        Op::Bang => seq![33u8],  // !
        Op::BangEqual => seq![33u8, 61u8],  // !=
        Op::EqualEqual => seq![61u8, 61u8],  // ==
        Op::Less => seq![60u8],  // <
        Op::LessEqual => seq![60u8, 61u8],  // <=
        Op::Greater => seq![62u8],  // >
        Op::GreaterEqual => seq![62u8, 61u8],  // >=
        Op::And => seq![97u8, 110u8, 100u8],  // and
        Op::Or => seq![111u8, 114u8],  // or
        Op::Field => seq![46u8],  // .
        Op::Print => seq![112u8, 114u8, 105u8, 110u8, 116u8],  // print
        _ => Seq::empty(),
    }
}

/// The text of a leaf: spans print their source bytes, the fixed leaves
/// their fixed words.
pub open spec fn atom_text_spec(a: Atom, code: Seq<u8>) -> Seq<u8> {
    match a {
        Atom::Ident(span) => clamp_slice_spec(code, span),
        Atom::String(span) => clamp_slice_spec(code, span),
        Atom::Number(span) => clamp_slice_spec(code, span),
        Atom::Bool(true) => seq![116u8, 114u8, 117u8, 101u8],  // true
        Atom::Bool(false) => seq![102u8, 97u8, 108u8, 115u8, 101u8],  // false
        Atom::Nil => seq![110u8, 105u8, 108u8],  // nil
        Atom::This => seq![116u8, 104u8, 105u8, 115u8],  // this
        Atom::Super => seq![115u8, 117u8, 112u8, 101u8, 114u8],  // super
        Atom::Error => seq![69u8, 114u8, 114u8, 111u8, 114u8],  // Error
    }
}

/// The canonical expression form of a tree: leaves as themselves, one
/// child after a prefix operator, two children around an infix operator,
/// grouping in braces, indexing in brackets, everything separated by one
/// space. Nodes that only a statement builds render as nothing here.
pub open spec fn render_expr_spec(t: TreeV, code: Seq<u8>) -> Seq<u8>
    decreases t, 0nat,
{
    match t {
        TreeV::Nil => seq![110u8, 105u8, 108u8],  // nil
        TreeV::Atom(a) => atom_text_spec(a, code),
        TreeV::NonTerm(op, cs) => {
            if op == Op::Group && cs.len() == 1 {
                seq![123u8, 32u8] + render_expr_spec(cs[0], code) + seq![32u8, 125u8]  // { e }
            } else if op == Op::Call && cs.len() == 2 {
                render_expr_spec(cs[0], code) + seq![32u8, 91u8, 32u8] + render_expr_spec(
                    cs[1],
                    code,
                ) + seq![32u8, 93u8]  // a [ i ]
            } else if cs.len() == 1 {
                op_text_spec(op) + seq![32u8] + render_expr_spec(cs[0], code)  // op e
            } else if cs.len() == 2 {
                render_expr_spec(cs[0], code) + seq![32u8] + op_text_spec(op) + seq![32u8]
                    + render_expr_spec(cs[1], code)  // a op b
            } else {
                Seq::empty()
            }
        },
        _ => Seq::empty(),
    }
}

/// A comma-separated parameter list in canonical form.
pub open spec fn render_params_spec(ps: Seq<TreeV>, code: Seq<u8>) -> Seq<u8>
    decreases ps, 1nat,
{
    if ps.len() == 0 {
        Seq::empty()
    } else if ps.len() == 1 {
        render_expr_spec(ps[0], code)
    } else {
        render_params_spec(ps.drop_last(), code) + seq![32u8, 44u8, 32u8] + render_expr_spec(
            ps.last(),
            code,
        )  // p , q
    }
}

/// The canonical statement form of a tree: statements print their keyword,
/// their parts in canonical form, and their closing `;` where the grammar
/// demands one; blocks print braces. A tree that is no statement prints
/// its expression form.
pub open spec fn render_statement_spec(t: TreeV, code: Seq<u8>) -> Seq<u8>
    decreases t, 2nat,
{
    match t {
        TreeV::Var(name, init) => {
            // var x = e ;
            seq![118u8, 97u8, 114u8, 32u8] + clamp_slice_spec(code, name) + seq![
                32u8,
                61u8,
                32u8,
            ] + render_expr_spec(*init, code) + seq![32u8, 59u8]
        },
        TreeV::Fun { name, parameters, body } => {
            // fun f ( ps ) body
            seq![102u8, 117u8, 110u8, 32u8] + clamp_slice_spec(code, name) + seq![
                32u8,
                40u8,
                32u8,
            ] + render_params_spec(parameters, code) + seq![32u8, 41u8, 32u8]
                + render_statement_spec(*body, code)
        },
        TreeV::NonTerm(op, cs) => {
            if op == Op::Print && cs.len() == 1 {
                // print e ;
                seq![112u8, 114u8, 105u8, 110u8, 116u8, 32u8] + render_expr_spec(cs[0], code)
                    + seq![32u8, 59u8]
            } else if op == Op::Class && cs.len() == 2 {
                // class C body
                seq![99u8, 108u8, 97u8, 115u8, 115u8, 32u8] + render_expr_spec(cs[0], code)
                    + seq![32u8] + render_statement_spec(cs[1], code)
            } else if op == Op::If && cs.len() == 2 {
                // if ( c ) body
                seq![105u8, 102u8, 32u8, 40u8, 32u8] + render_expr_spec(cs[0], code) + seq![
                    32u8,
                    41u8,
                    32u8,
                ] + render_statement_spec(cs[1], code)
            } else if op == Op::While && cs.len() == 2 {
                // while ( c ) body
                seq![119u8, 104u8, 105u8, 108u8, 101u8, 32u8, 40u8, 32u8] + render_expr_spec(
                    cs[0],
                    code,
                ) + seq![32u8, 41u8, 32u8] + render_statement_spec(cs[1], code)
            } else if op == Op::For && cs.len() == 4 {
                // for ( init c ; inc ) body
                seq![102u8, 111u8, 114u8, 32u8, 40u8, 32u8] + render_statement_spec(cs[0], code)
                    + seq![32u8] + render_expr_spec(cs[1], code) + seq![32u8, 59u8, 32u8]
                    + render_expr_spec(cs[2], code) + seq![32u8, 41u8, 32u8]
                    + render_statement_spec(cs[3], code)
            } else if op == Op::Group && cs.len() == 1 {
                // { s }
                seq![123u8, 32u8] + render_statement_spec(cs[0], code) + seq![32u8, 125u8]
            } else if op == Op::Else && cs.len() == 1 {
                // else s
                seq![101u8, 108u8, 115u8, 101u8, 32u8] + render_statement_spec(cs[0], code)
            } else {
                render_expr_spec(t, code)
            }
        },
        _ => render_expr_spec(t, code),
    }
}

/// Append the bytes of `code` under the span, when it lies inside `code`.
fn append_slice(out: &mut Vec<u8>, code: &[u8], span: Span)
    ensures
        final(out)@ == old(out)@ + clamp_slice_spec(code@, span),
{
    if span.start <= span.end && span.end <= code.len() {
        let mut i = span.start;
        while i < span.end
            invariant
                span.start <= i <= span.end <= code@.len(),
                out@ == old(out)@ + code@.subrange(span.start as int, i as int),
            decreases span.end - i,
        {
            let ghost before = out@;
            out.push(code[i]);
            proof {
                assert(code@.subrange(span.start as int, i + 1) =~= code@.subrange(
                    span.start as int,
                    i as int,
                ) + seq![code@[i as int]]);
                assert(out@ =~= old(out)@ + code@.subrange(span.start as int, i + 1));
            }
            i = i + 1;
        }
        proof {
            assert(out@ =~= old(out)@ + clamp_slice_spec(code@, span));
        }
    } else {
        proof {
            assert(out@ =~= old(out)@ + clamp_slice_spec(code@, span));
        }
    }
}

/// Append an expression operator's own text.
fn append_op_text(out: &mut Vec<u8>, op: Op)
    ensures
        final(out)@ == old(out)@ + op_text_spec(op),
{
    match op {
        Op::Minus => out.push(45),
        Op::Plus => out.push(43),
        Op::Star => out.push(42),
        Op::Slash => out.push(47),
        Op::Bang => out.push(33),
        Op::BangEqual => {
            out.push(33);
            out.push(61);
        },
        Op::EqualEqual => {
            out.push(61);
            out.push(61);
        },
        Op::Less => out.push(60),
        Op::LessEqual => {
            out.push(60);
            out.push(61);
        },
        Op::Greater => out.push(62),
        Op::GreaterEqual => {
            out.push(62);
            out.push(61);
        },
        Op::And => {
            out.push(97);
            out.push(110);
            out.push(100);
        },
        Op::Or => {
            out.push(111);
            out.push(114);
        },
        Op::Field => out.push(46),
        Op::Print => {
            out.push(112);
            out.push(114);
            out.push(105);
            out.push(110);
            out.push(116);
        },
        _ => {},
    }
    proof {
        assert(out@ =~= old(out)@ + op_text_spec(op));
    }
}

/// Append a leaf's text.
fn append_atom(out: &mut Vec<u8>, a: &Atom, code: &[u8])
    ensures
        final(out)@ == old(out)@ + atom_text_spec(*a, code@),
{
    match *a {
        Atom::Ident(span) => append_slice(out, code, span),
        Atom::String(span) => append_slice(out, code, span),
        Atom::Number(span) => append_slice(out, code, span),
        Atom::Bool(true) => {
            out.push(116);
            out.push(114);
            out.push(117);
            out.push(101);
        },
        Atom::Bool(false) => {
            out.push(102);
            out.push(97);
            out.push(108);
            out.push(115);
            out.push(101);
        },
        Atom::Nil => {
            out.push(110);
            out.push(105);
            out.push(108);
        },
        Atom::This => {
            out.push(116);
            out.push(104);
            out.push(105);
            out.push(115);
        },
        Atom::Super => {
            out.push(115);
            out.push(117);
            out.push(112);
            out.push(101);
            out.push(114);
        },
        Atom::Error => {
            out.push(69);
            out.push(114);
            out.push(114);
            out.push(111);
            out.push(114);
        },
    }
    proof {
        assert(out@ =~= old(out)@ + atom_text_spec(*a, code@));
    }
}

/// Append the canonical expression form of `t`.
#[verifier::rlimit(50)]
#[verifier::spinoff_prover]
fn append_expr(t: &Tree, code: &[u8], out: &mut Vec<u8>)
    ensures
        final(out)@ == old(out)@ + render_expr_spec(tree_view(*t), code@),
    decreases *t, 0nat,
{
    match t {
        Tree::Nil => {
            out.push(110);
            out.push(105);
            out.push(108);
            proof {
                assert(out@ =~= old(out)@ + render_expr_spec(tree_view(*t), code@));
            }
        },
        Tree::Atom(a) => {
            append_atom(out, a, code);
        },
        Tree::NonTerm(op, children) => {
            proof {
                lemma_trees_view(children@);
            }
            let n = children.len();
            if *op == Op::Group && n == 1 {
                out.push(123);
                out.push(32);
                append_expr(&children[0], code, out);
                out.push(32);
                out.push(125);
                proof {
                    assert(out@ =~= old(out)@ + render_expr_spec(tree_view(*t), code@));
                }
            } else if *op == Op::Call && n == 2 {
                append_expr(&children[0], code, out);
                out.push(32);
                out.push(91);
                out.push(32);
                append_expr(&children[1], code, out);
                out.push(32);
                out.push(93);
                proof {
                    assert(out@ =~= old(out)@ + render_expr_spec(tree_view(*t), code@));
                }
            } else if n == 1 {
                append_op_text(out, *op);
                out.push(32);
                append_expr(&children[0], code, out);
                proof {
                    assert(out@ =~= old(out)@ + render_expr_spec(tree_view(*t), code@));
                }
            } else if n == 2 {
                append_expr(&children[0], code, out);
                out.push(32);
                append_op_text(out, *op);
                out.push(32);
                append_expr(&children[1], code, out);
                proof {
                    assert(out@ =~= old(out)@ + render_expr_spec(tree_view(*t), code@));
                }
            } else {
                proof {
                    assert(out@ =~= old(out)@ + render_expr_spec(tree_view(*t), code@));
                }
            }
        },
        _ => {
            proof {
                assert(out@ =~= old(out)@ + render_expr_spec(tree_view(*t), code@));
            }
        },
    }
}

/// Append a comma-separated parameter list in canonical form.
#[verifier::loop_isolation(false)]
fn append_params(out: &mut Vec<u8>, params: &Vec<Tree>, code: &[u8])
    ensures
        final(out)@ == old(out)@ + render_params_spec(trees_view(params@), code@),
{
    let ghost ps = trees_view(params@);
    proof {
        lemma_trees_view(params@);
    }
    let mut i: usize = 0;
    while i < params.len()
        invariant
            0 <= i <= params@.len(),
            out@ == old(out)@ + render_params_spec(ps.subrange(0, i as int), code@),
        decreases params@.len() - i,
    {
        if i > 0 {
            out.push(32);
            out.push(44);
            out.push(32);
        }
        append_expr(&params[i], code, out);
        proof {
            let pre = ps.subrange(0, i as int);
            let post = ps.subrange(0, i + 1);
            assert(post.drop_last() =~= pre);
            assert(post.last() == ps[i as int]);
            if i == 0 {
                assert(post.len() == 1);
                assert(post[0] == ps[0]);
            }
            assert(out@ =~= old(out)@ + render_params_spec(post, code@));
        }
        i = i + 1;
    }
    proof {
        assert(ps.subrange(0, params@.len() as int) =~= ps);
    }
}

/// Append the canonical statement form of `t`.
#[verifier::rlimit(100)]
#[verifier::spinoff_prover]
fn append_statement(t: &Tree, code: &[u8], out: &mut Vec<u8>)
    ensures
        final(out)@ == old(out)@ + render_statement_spec(tree_view(*t), code@),
    decreases *t, 2nat,
{
    match t {
        Tree::Var(name, init) => {
            out.push(118);
            out.push(97);
            out.push(114);
            out.push(32);
            append_slice(out, code, *name);
            out.push(32);
            out.push(61);
            out.push(32);
            append_expr(init, code, out);
            out.push(32);
            out.push(59);
            proof {
                assert(out@ =~= old(out)@ + render_statement_spec(tree_view(*t), code@));
            }
        },
        Tree::Fun { name, parameters, body } => {
            out.push(102);
            out.push(117);
            out.push(110);
            out.push(32);
            append_slice(out, code, *name);
            out.push(32);
            out.push(40);
            out.push(32);
            append_params(out, parameters, code);
            out.push(32);
            out.push(41);
            out.push(32);
            append_statement(body, code, out);
            proof {
                assert(out@ =~= old(out)@ + render_statement_spec(tree_view(*t), code@));
            }
        },
        Tree::NonTerm(op, children) => {
            proof {
                lemma_trees_view(children@);
            }
            let n = children.len();
            if *op == Op::Print && n == 1 {
                out.push(112);
                out.push(114);
                out.push(105);
                out.push(110);
                out.push(116);
                out.push(32);
                append_expr(&children[0], code, out);
                out.push(32);
                out.push(59);
                proof {
                    assert(out@ =~= old(out)@ + render_statement_spec(tree_view(*t), code@));
                }
            } else if *op == Op::Class && n == 2 {
                out.push(99);
                out.push(108);
                out.push(97);
                out.push(115);
                out.push(115);
                out.push(32);
                append_expr(&children[0], code, out);
                out.push(32);
                append_statement(&children[1], code, out);
                proof {
                    assert(out@ =~= old(out)@ + render_statement_spec(tree_view(*t), code@));
                }
            } else if *op == Op::If && n == 2 {
                out.push(105);
                out.push(102);
                out.push(32);
                out.push(40);
                out.push(32);
                append_expr(&children[0], code, out);
                out.push(32);
                out.push(41);
                out.push(32);
                append_statement(&children[1], code, out);
                proof {
                    assert(out@ =~= old(out)@ + render_statement_spec(tree_view(*t), code@));
                }
            } else if *op == Op::While && n == 2 {
                out.push(119);
                out.push(104);
                out.push(105);
                out.push(108);
                out.push(101);
                out.push(32);
                out.push(40);
                out.push(32);
                append_expr(&children[0], code, out);
                out.push(32);
                out.push(41);
                out.push(32);
                append_statement(&children[1], code, out);
                proof {
                    assert(out@ =~= old(out)@ + render_statement_spec(tree_view(*t), code@));
                }
            } else if *op == Op::For && n == 4 {
                out.push(102);
                out.push(111);
                out.push(114);
                out.push(32);
                out.push(40);
                out.push(32);
                append_statement(&children[0], code, out);
                out.push(32);
                append_expr(&children[1], code, out);
                out.push(32);
                out.push(59);
                out.push(32);
                append_expr(&children[2], code, out);
                out.push(32);
                out.push(41);
                out.push(32);
                append_statement(&children[3], code, out);
                proof {
                    assert(out@ =~= old(out)@ + render_statement_spec(tree_view(*t), code@));
                }
            } else if *op == Op::Group && n == 1 {
                out.push(123);
                out.push(32);
                append_statement(&children[0], code, out);
                out.push(32);
                out.push(125);
                proof {
                    assert(out@ =~= old(out)@ + render_statement_spec(tree_view(*t), code@));
                }
            } else if *op == Op::Else && n == 1 {
                out.push(101);
                out.push(108);
                out.push(115);
                out.push(101);
                out.push(32);
                append_statement(&children[0], code, out);
                proof {
                    assert(out@ =~= old(out)@ + render_statement_spec(tree_view(*t), code@));
                }
            } else {
                append_expr(t, code, out);
                proof {
                    assert(out@ =~= old(out)@ + render_statement_spec(tree_view(*t), code@));
                }
            }
        },
        _ => {
            append_expr(t, code, out);
            proof {
                assert(out@ =~= old(out)@ + render_statement_spec(tree_view(*t), code@));
            }
        },
    }
}

impl Tree {
    /// The canonical source text of this tree read as an expression.
    pub fn render_expr(&self, code: &[u8]) -> (out: Vec<u8>)
        ensures
            out@ == render_expr_spec(tree_view(*self), code@),
    {
        let mut out = Vec::new();
        append_expr(self, code, &mut out);
        proof {
            assert(out@ =~= render_expr_spec(tree_view(*self), code@));
        }
        out
    }

    /// The canonical source text of this tree read as a statement.
    pub fn render_statement(&self, code: &[u8]) -> (out: Vec<u8>)
        ensures
            out@ == render_statement_spec(tree_view(*self), code@),
    {
        let mut out = Vec::new();
        append_statement(self, code, &mut out);
        proof {
            assert(out@ =~= render_statement_spec(tree_view(*self), code@));
        }
        out
    }
}

} // verus!
