//! The abstract syntax tree the parser builds: `Tree` with `Atom` leaves
//! and `Op` labels, its ghost counterpart `TreeV` used in specifications,
//! and the arity invariant every parser-built node obeys.

use vstd::prelude::*;

use crate::token::Span;

verus! {

/// Operators and statement keywords, unified into one space of node labels.
#[derive(Debug, Clone, Copy, PartialEq, Eq, Structural)]
pub enum Op {
    Minus,
    Plus,
    Star,
    BangEqual,
    EqualEqual,
    LessEqual,
    GreaterEqual,
    Less,
    Greater,
    Slash,
    Bang,
    And,
    Or,
    Call,
    For,
    If,
    Else,
    Class,
    Print,
    Return,
    Field,
    Var,
    While,
    Group,
}

/// A leaf of the tree. Leaves that refer to source text (identifiers,
/// strings, numbers) carry the span of their token; the text and the
/// numeric value are recovered from the source.
#[derive(Debug, Clone, Copy, PartialEq, Eq, Structural)]
pub enum Atom {
    Ident(Span),
    String(Span),
    Number(Span),
    Bool(bool),
    Nil,
    This,
    Super,
    /// Placeholder for a node that failed to parse while parsing continued.
    Error,
}

/// The abstract syntax tree.
#[derive(Debug, PartialEq, Eq)]
pub enum Tree {
    Nil,
    Atom(Atom),
    NonTerm(Op, Vec<Tree>),
    /// A variable declaration: the name's span and the initializer.
    Var(Span, Box<Tree>),
    Fun { name: Span, parameters: Vec<Tree>, body: Box<Tree> },
    Call { callee: Box<Tree>, arguments: Vec<Tree> },
}

/// The mathematical shape of a `Tree`, with ghost sequences for children;
/// contracts and the specification-level parser speak in this type.
pub ghost enum TreeV {
    Nil,
    Atom(Atom),
    NonTerm(Op, Seq<TreeV>),
    Var(Span, Box<TreeV>),
    Fun { name: Span, parameters: Seq<TreeV>, body: Box<TreeV> },
    Call { callee: Box<TreeV>, arguments: Seq<TreeV> },
}

/// The shapes of a sequence of trees, in order.
pub open spec fn trees_view(ts: Seq<Tree>) -> Seq<TreeV>
    decreases ts,
{
    if ts.len() == 0 {
        Seq::empty()
    } else {
        trees_view(ts.drop_last()).push(tree_view(ts.last()))
    }
}

/// The shape of a `Tree` as a ghost value.
pub open spec fn tree_view(t: Tree) -> TreeV
    decreases t,
{
    match t {
        Tree::Nil => TreeV::Nil,
        Tree::Atom(a) => TreeV::Atom(a),
        Tree::NonTerm(op, children) => TreeV::NonTerm(op, trees_view(children@)),
        Tree::Var(name, init) => TreeV::Var(name, Box::new(tree_view(*init))),
        Tree::Fun { name, parameters, body } => TreeV::Fun {
            name,
            parameters: trees_view(parameters@),
            body: Box::new(tree_view(*body)),
        },
        Tree::Call { callee, arguments } => TreeV::Call {
            callee: Box::new(tree_view(*callee)),
            arguments: trees_view(arguments@),
        },
    }
}

/// `trees_view` is the pointwise image of `tree_view`.
pub proof fn lemma_trees_view(ts: Seq<Tree>)
    ensures
        trees_view(ts).len() == ts.len(),
        forall|i: int| 0 <= i < ts.len() ==> #[trigger] trees_view(ts)[i] == tree_view(ts[i]),
    decreases ts,
{
    if ts.len() > 0 {
        lemma_trees_view(ts.drop_last());
        assert forall|i: int| 0 <= i < ts.len() implies #[trigger] trees_view(ts)[i] == tree_view(
            ts[i],
        ) by {
            if i < ts.len() - 1 {
                assert(ts.drop_last()[i] == ts[i]);
                assert(trees_view(ts)[i] == trees_view(ts.drop_last())[i]);
            } else {
                assert(ts[i] == ts.last());
            }
        }
    }
}

impl View for Tree {
    type V = TreeV;

    open spec fn view(&self) -> TreeV {
        tree_view(*self)
    }
}

/// How many children a `NonTerm` labelled with this operator may carry:
/// `-` is both prefix and binary, `!` and the grouping and statement prefix
/// labels take one, `For` takes init, condition, increment and body, and
/// the remaining operators are binary. `Var` and `Return` label no
/// `NonTerm` node at all.
pub open spec fn nonterm_arity_ok(op: Op, n: nat) -> bool {
    match op {
        Op::Minus => n == 1 || n == 2,
        Op::Bang | Op::Group | Op::Else | Op::Print => n == 1,
        Op::For => n == 4,
        Op::Var | Op::Return => false,
        _ => n == 2,
    }
}

/// A well-ordered span that ends at or before offset `n`.
pub open spec fn span_in(s: Span, n: nat) -> bool {
    s.start <= s.end <= n
}

/// Whether every span a leaf or declaration name carries lies inside a
/// source of length `n`.
pub open spec fn atom_span_in(a: Atom, n: nat) -> bool {
    match a {
        Atom::Ident(s) => span_in(s, n),
        Atom::String(s) => span_in(s, n),
        Atom::Number(s) => span_in(s, n),
        _ => true,
    }
}

/// Every span anywhere in the tree lies inside a source of length `n`;
/// parser output satisfies this for the source it was parsed from.
pub open spec fn tree_spans_in(t: TreeV, n: nat) -> bool
    decreases t,
{
    match t {
        TreeV::Nil => true,
        TreeV::Atom(a) => atom_span_in(a, n),
        TreeV::NonTerm(_, children) => forall|i: int|
            0 <= i < children.len() ==> tree_spans_in(#[trigger] children[i], n),
        TreeV::Var(name, init) => span_in(name, n) && tree_spans_in(*init, n),
        TreeV::Fun { name, parameters, body } => span_in(name, n) && (forall|i: int|
            0 <= i < parameters.len() ==> tree_spans_in(#[trigger] parameters[i], n))
            && tree_spans_in(*body, n),
        TreeV::Call { callee, arguments } => tree_spans_in(*callee, n) && (forall|i: int|
            0 <= i < arguments.len() ==> tree_spans_in(#[trigger] arguments[i], n)),
    }
}

/// The structural invariant of parser output: every `NonTerm` carries the
/// child count its operator expects.
pub open spec fn wf_tree(t: TreeV) -> bool
    decreases t,
{
    match t {
        TreeV::Nil => true,
        TreeV::Atom(_) => true,
        TreeV::NonTerm(op, children) => nonterm_arity_ok(op, children.len()) && (forall|i: int|
            0 <= i < children.len() ==> wf_tree(#[trigger] children[i])),
        TreeV::Var(_, init) => wf_tree(*init),
        TreeV::Fun { name: _, parameters, body } => (forall|i: int|
            0 <= i < parameters.len() ==> wf_tree(#[trigger] parameters[i])) && wf_tree(*body),
        TreeV::Call { callee, arguments } => wf_tree(*callee) && (forall|i: int|
            0 <= i < arguments.len() ==> wf_tree(#[trigger] arguments[i])),
    }
}

} // verus!
