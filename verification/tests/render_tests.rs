use lox_front::ast::{Atom, Tree};
use lox_front::parser::{parse_expression, parse_statement};

/// Structural equality of two trees whose leaves live in different source
/// texts: spans are compared by the text they point at.
fn same_shape(a: &Tree, asrc: &[u8], b: &Tree, bsrc: &[u8]) -> bool {
    let atom_text = |atom: &Atom, src: &[u8]| -> Option<Vec<u8>> {
        match atom {
            Atom::Ident(s) | Atom::String(s) | Atom::Number(s) => {
                Some(src[s.start..s.end].to_vec())
            }
            _ => None,
        }
    };
    match (a, b) {
        (Tree::Nil, Tree::Nil) => true,
        (Tree::Atom(x), Tree::Atom(y)) => match (atom_text(x, asrc), atom_text(y, bsrc)) {
            (Some(tx), Some(ty)) => {
                std::mem::discriminant(x) == std::mem::discriminant(y) && tx == ty
            }
            (None, None) => x == y,
            _ => false,
        },
        (Tree::NonTerm(opa, ca), Tree::NonTerm(opb, cb)) => {
            opa == opb
                && ca.len() == cb.len()
                && ca
                    .iter()
                    .zip(cb.iter())
                    .all(|(x, y)| same_shape(x, asrc, y, bsrc))
        }
        (Tree::Var(na, ia), Tree::Var(nb, ib)) => {
            asrc[na.start..na.end] == bsrc[nb.start..nb.end] && same_shape(ia, asrc, ib, bsrc)
        }
        (
            Tree::Fun {
                name: na,
                parameters: pa,
                body: ba,
            },
            Tree::Fun {
                name: nb,
                parameters: pb,
                body: bb,
            },
        ) => {
            asrc[na.start..na.end] == bsrc[nb.start..nb.end]
                && pa.len() == pb.len()
                && pa
                    .iter()
                    .zip(pb.iter())
                    .all(|(x, y)| same_shape(x, asrc, y, bsrc))
                && same_shape(ba, asrc, bb, bsrc)
        }
        _ => false,
    }
}

fn round_trip_expression(src: &str) {
    let t1 = parse_expression(src.as_bytes()).expect("parse failed");
    let printed = t1.render_expr(src.as_bytes());
    let t2 = parse_expression(&printed).expect("re-parse of canonical form failed");
    assert!(
        same_shape(&t1, src.as_bytes(), &t2, &printed),
        "canonical form {:?} re-parsed differently",
        String::from_utf8_lossy(&printed)
    );
    // The canonical form is a fixed point of print-then-parse.
    let reprinted = t2.render_expr(&printed);
    assert_eq!(printed, reprinted);
}

fn round_trip_statement(src: &str) {
    let t1 = parse_statement(src.as_bytes()).expect("parse failed");
    let printed = t1.render_statement(src.as_bytes());
    let t2 = parse_statement(&printed).expect("re-parse of canonical form failed");
    assert!(
        same_shape(&t1, src.as_bytes(), &t2, &printed),
        "canonical form {:?} re-parsed differently",
        String::from_utf8_lossy(&printed)
    );
    let reprinted = t2.render_statement(&printed);
    assert_eq!(printed, reprinted);
}

#[test]
fn expression_round_trips() {
    round_trip_expression("1 + 2 * 3");
    round_trip_expression("(1 + 2) * 3");
    round_trip_expression("-1 + 2");
    round_trip_expression("! ok and maybe or 1 <= 2");
    round_trip_expression("a . b . c");
    round_trip_expression("xs [ 1 + 2 ]");
    round_trip_expression("\"hi\"");
    round_trip_expression("nil");
    round_trip_expression("true == false");
}

#[test]
fn statement_round_trips() {
    round_trip_statement("print \"hi\";");
    round_trip_statement("var x = 1 + 2;");
    round_trip_statement("if ( x < 2 ) { print x ; }");
    round_trip_statement("while ( true ) { var y = 1 ; }");
    round_trip_statement("for ( var i = 0; i < 9; i + 1 ) { print i ; }");
    round_trip_statement("fun f ( a , b ) { print a ; }");
    round_trip_statement("fun g ( ) { print 1 ; }");
    round_trip_statement("class C { var x = 1 ; }");
    round_trip_statement("else print 1 ;");
    round_trip_statement("{ print 1 ; }");
}

#[test]
fn rendered_expression_text() {
    let src = "(1 + 2) * 3".as_bytes();
    let tree = parse_expression(src).expect("parse failed");
    let printed = tree.render_expr(src);
    assert_eq!(String::from_utf8(printed).unwrap(), "{ 1 + 2 } * 3");
}

#[test]
fn rendered_statement_text() {
    let src = "var x=1+2;".as_bytes();
    let tree = parse_statement(src).expect("parse failed");
    let printed = tree.render_statement(src);
    assert_eq!(String::from_utf8(printed).unwrap(), "var x = 1 + 2 ;");
}
