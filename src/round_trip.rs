//! Printing an expression with minimal parentheses and parsing the text again
//! gives an expression of the same value.
//!
//! The text need not give the same tree back: `1+(2+0)` prints as `1+2+0`,
//! which parses as `(1+2)+0`. What makes the values agree is that 32-bit
//! wrapping addition and multiplication are associative.
use vstd::prelude::*;
use vstd::arithmetic::div_mod::{lemma_fundamental_div_mod, lemma_mod_multiples_vanish};
use vstd::arithmetic::mul::lemma_mul_is_associative;
use crate::ast::{Node, minimal_text, value};
use crate::parser::{
    ParseError, ScanState, advance, measure, parse_expr, parse_expr_rest, parse_factor, parse_term,
    parse_term_rest, parse_text, progress,
};
use crate::tokenizer::{Token, scan, lemma_scan_moves};

verus! {

/// The number of values of a 32-bit integer.
pub open spec fn word() -> int {
    0x1_0000_0000
}

/// Wrapping addition of 32-bit integers is associative.
pub proof fn lemma_wrapping_add_associative(a: i32, b: i32, c: i32)
    ensures
        a.wrapping_add(b).wrapping_add(c) == a.wrapping_add(b.wrapping_add(c)),
{
}

proof fn lemma_crop_shift(x: int, t: int)
    ensures
        vstd::wrapping::i32_specs::signed_crop(x + word() * t) == vstd::wrapping::i32_specs::signed_crop(x),
{
    lemma_mod_multiples_vanish(t, x, word());
    assert(x + word() * t == word() * t + x);
}

proof fn lemma_crop_is_shift(x: int) -> (t: int)
    ensures
        vstd::wrapping::i32_specs::signed_crop(x) == x + word() * t,
{
    lemma_fundamental_div_mod(x, word());
    let q = x / word();
    if x % word() > 0x7fff_ffff {
        -q - 1
    } else {
        -q
    }
}

/// Wrapping multiplication of 32-bit integers is associative.
pub proof fn lemma_wrapping_mul_associative(a: i32, b: i32, c: i32)
    ensures
        a.wrapping_mul(b).wrapping_mul(c) == a.wrapping_mul(b.wrapping_mul(c)),
{
    let ab = a as int * b as int;
    let bc = b as int * c as int;
    let t1 = lemma_crop_is_shift(ab);
    let t2 = lemma_crop_is_shift(bc);
    let x = a.wrapping_mul(b) as int;
    let y = b.wrapping_mul(c) as int;
    assert(x * c == ab * c + word() * (t1 * c)) by (nonlinear_arith)
        requires x == ab + word() * t1;
    assert(a * y == a * bc + word() * (t2 * a)) by (nonlinear_arith)
        requires y == bc + word() * t2;
    lemma_mul_is_associative(a as int, b as int, c as int);
    lemma_crop_shift(ab * c, t1 * c);
    lemma_crop_shift(a * bc, t2 * a);
}

/// Every literal of `e` is a digit of the language.
pub open spec fn digit_literals(e: Node) -> bool
    decreases e,
{
    match e {
        Node::Int(v) => 0 <= v <= 2,
        Node::Plus(l, r) => digit_literals(*l) && digit_literals(*r),
        Node::Mult(l, r) => digit_literals(*l) && digit_literals(*r),
    }
}

/// The tree that the parser builds from the minimal text of `e`: chains of
/// one operator come back leaning to the left.
pub open spec fn reparse(e: Node) -> Node
    decreases e, 0int,
{
    match e {
        Node::Int(_) => e,
        Node::Plus(l, r) => fold_sum(reparse(*l), *r),
        Node::Mult(l, r) => fold_product(reparse(*l), *r),
    }
}

/// The tree built from `acc` and the terms of the sum `e`, added one by one.
pub open spec fn fold_sum(acc: Node, e: Node) -> Node
    decreases e, 1int,
{
    match e {
        Node::Plus(l, r) => fold_sum(fold_sum(acc, *l), *r),
        _ => Node::Plus(Box::new(acc), Box::new(reparse(e))),
    }
}

/// The tree built from `acc` and the factors of the product `e`, multiplied one by one.
pub open spec fn fold_product(acc: Node, e: Node) -> Node
    decreases e, 1int,
{
    match e {
        Node::Mult(l, r) => fold_product(fold_product(acc, *l), *r),
        _ => Node::Mult(Box::new(acc), Box::new(reparse(e))),
    }
}

proof fn lemma_reparse_value(e: Node)
    ensures
        value(reparse(e)) == value(e),
    decreases e, 0int,
{
    match e {
        Node::Int(_) => {},
        Node::Plus(l, r) => {
            lemma_reparse_value(*l);
            lemma_fold_sum_value(reparse(*l), *r);
        },
        Node::Mult(l, r) => {
            lemma_reparse_value(*l);
            lemma_fold_product_value(reparse(*l), *r);
        },
    }
}

proof fn lemma_fold_sum_value(acc: Node, e: Node)
    ensures
        value(fold_sum(acc, e)) == value(acc).wrapping_add(value(e)),
    decreases e, 1int,
{
    match e {
        Node::Plus(l, r) => {
            lemma_fold_sum_value(acc, *l);
            lemma_fold_sum_value(fold_sum(acc, *l), *r);
            lemma_wrapping_add_associative(value(acc), value(*l), value(*r));
        },
        _ => {
            lemma_reparse_value(e);
        },
    }
}

proof fn lemma_fold_product_value(acc: Node, e: Node)
    ensures
        value(fold_product(acc, e)) == value(acc).wrapping_mul(value(e)),
    decreases e, 1int,
{
    match e {
        Node::Mult(l, r) => {
            lemma_fold_product_value(acc, *l);
            lemma_fold_product_value(fold_product(acc, *l), *r);
            lemma_wrapping_mul_associative(value(acc), value(*l), value(*r));
        },
        _ => {
            lemma_reparse_value(e);
        },
    }
}

/// `t` stands in `s` from index `p` on.
pub open spec fn placed(s: Seq<char>, p: int, t: Seq<char>) -> bool {
    0 <= p && p + t.len() <= s.len() && s.subrange(p, p + t.len()) == t
}

proof fn lemma_placed_split(s: Seq<char>, p: int, x: Seq<char>, c: char, y: Seq<char>)
    requires
        placed(s, p, x + seq![c] + y),
    ensures
        placed(s, p, x),
        s[p + x.len()] == c,
        placed(s, p + x.len() + 1, y),
{
    let t = x + seq![c] + y;
    let a = x.len() as int;
    assert(s.subrange(p, p + a) == t.subrange(0, a));
    assert(t.subrange(0, a) == x);
    assert(s[p + a] == t[a]);
    assert(s.subrange(p + a + 1, p + a + 1 + y.len()) == t.subrange(a + 1, t.len() as int));
    assert(t.subrange(a + 1, t.len() as int) == y);
}

proof fn lemma_placed_bracket(s: Seq<char>, p: int, x: Seq<char>)
    requires
        placed(s, p, seq!['('] + x + seq![')']),
    ensures
        s[p] == '(',
        placed(s, p + 1, x),
        s[p + 1 + x.len()] == ')',
{
    lemma_placed_split(s, p, seq!['('] + x, ')', Seq::empty());
    let t = seq!['('] + x;
    assert(s[p] == s.subrange(p, p + t.len())[0]);
    assert(s.subrange(p + 1, p + 1 + x.len()) == s.subrange(p, p + t.len()).subrange(1, t.len() as int));
    assert(t.subrange(1, t.len() as int) == x);
}

/// Scanning from a cursor at or past that of a state whose token is not the
/// end moves the scan forward.
proof fn lemma_progress(s: Seq<char>, st: (Token, int), q: int)
    requires
        st.0 != Token::EOS,
        0 <= st.1 <= q <= s.len(),
    ensures
        progress(s, st, scan(s, q)),
{
    lemma_scan_moves(s, q);
}

proof fn lemma_text_starts(e: Node, sub: bool)
    requires
        digit_literals(e),
    ensures
        minimal_text(e, sub).len() >= 1,
        crate::tokenizer::token_of(minimal_text(e, sub)[0]) is Some,
    decreases e,
{
    match e {
        Node::Int(_) => {},
        Node::Plus(l, r) => {
            lemma_text_starts(*l, false);
        },
        Node::Mult(l, r) => {
            lemma_text_starts(*l, true);
        },
    }
}

proof fn lemma_factor(s: Seq<char>, e: Node, p: int)
    requires
        digit_literals(e),
        !(e is Mult),
        placed(s, p, minimal_text(e, true)),
    ensures
        parse_factor(s, scan(s, p)) == Ok::<(Node, (Token, int)), crate::parser::ParseError>(
            (reparse(e), scan(s, p + minimal_text(e, true).len())),
        ),
    decreases e, if e is Plus { 2int } else { 1int },
{
    let t = minimal_text(e, true);
    match e {
        Node::Int(v) => {
            assert(s[p] == t[0]);
        },
        Node::Plus(l, r) => {
            let inner = minimal_text(e, false);
            assert(t == seq!['('] + inner + seq![')']);
            lemma_placed_bracket(s, p, inner);
            let k = inner.len() as int;
            assert(scan(s, p) == (Token::OPEN, p + 1));
            assert(scan(s, p + 1 + k) == (Token::CLOSE, p + 2 + k));
            lemma_progress(s, scan(s, p), p + 1);
            lemma_expr(s, e, p + 1);
        },
        Node::Mult(_, _) => {},
    }
}

proof fn lemma_term(s: Seq<char>, e: Node, p: int)
    requires
        digit_literals(e),
        placed(s, p, minimal_text(e, true)),
    ensures
        parse_term(s, scan(s, p)) == parse_term_rest(s, reparse(e), scan(s, p + minimal_text(e, true).len())),
    decreases e, if e is Plus { 3int } else { 2int },
{
    let n = minimal_text(e, true).len() as int;
    match e {
        Node::Mult(l, r) => {
            let a = minimal_text(*l, true);
            let b = minimal_text(*r, true);
            lemma_placed_split(s, p, a, '*', b);
            lemma_term(s, *l, p);
            assert(scan(s, p + a.len()) == (Token::MULT, p + a.len() + 1));
            lemma_term_rest(s, *r, p + a.len() + 1, reparse(*l));
        },
        _ => {
            lemma_factor(s, e, p);
            assert(s[p] == minimal_text(e, true)[0]);
            lemma_progress(s, scan(s, p), p + n);
        },
    }
}

proof fn lemma_term_rest(s: Seq<char>, e: Node, q: int, acc: Node)
    requires
        digit_literals(e),
        1 <= q,
        placed(s, q, minimal_text(e, true)),
    ensures
        parse_term_rest(s, acc, (Token::MULT, q))
            == parse_term_rest(s, fold_product(acc, e), scan(s, q + minimal_text(e, true).len())),
    decreases e, 3int,
{
    let n = minimal_text(e, true).len() as int;
    match e {
        Node::Mult(l, r) => {
            let a = minimal_text(*l, true);
            let b = minimal_text(*r, true);
            lemma_placed_split(s, q, a, '*', b);
            lemma_term_rest(s, *l, q, acc);
            assert(scan(s, q + a.len()) == (Token::MULT, q + a.len() + 1));
            lemma_term_rest(s, *r, q + a.len() + 1, fold_product(acc, *l));
        },
        _ => {
            lemma_factor(s, e, q);
            assert(s[q] == minimal_text(e, true)[0]);
            lemma_progress(s, (Token::MULT, q), q);
            lemma_progress(s, (Token::MULT, q), q + n);
        },
    }
}

proof fn lemma_expr(s: Seq<char>, e: Node, p: int)
    requires
        digit_literals(e),
        placed(s, p, minimal_text(e, false)),
        scan(s, p + minimal_text(e, false).len()).0 != Token::MULT,
    ensures
        parse_expr(s, scan(s, p)) == parse_expr_rest(s, reparse(e), scan(s, p + minimal_text(e, false).len())),
    decreases e, if e is Plus { 1int } else { 3int },
{
    let n = minimal_text(e, false).len() as int;
    match e {
        Node::Plus(l, r) => {
            let a = minimal_text(*l, false);
            let b = minimal_text(*r, false);
            lemma_placed_split(s, p, a, '+', b);
            assert(scan(s, p + a.len()) == (Token::PLUS, p + a.len() + 1));
            lemma_expr(s, *l, p);
            lemma_expr_rest(s, *r, p + a.len() + 1, reparse(*l));
        },
        _ => {
            assert(minimal_text(e, false) == minimal_text(e, true));
            lemma_text_starts(e, true);
            lemma_term(s, e, p);
            assert(s[p] == minimal_text(e, true)[0]);
            lemma_progress(s, scan(s, p), p + n);
        },
    }
}

proof fn lemma_expr_rest(s: Seq<char>, e: Node, q: int, acc: Node)
    requires
        digit_literals(e),
        1 <= q,
        placed(s, q, minimal_text(e, false)),
        scan(s, q + minimal_text(e, false).len()).0 != Token::MULT,
    ensures
        parse_expr_rest(s, acc, (Token::PLUS, q))
            == parse_expr_rest(s, fold_sum(acc, e), scan(s, q + minimal_text(e, false).len())),
    decreases e, 4int,
{
    let n = minimal_text(e, false).len() as int;
    match e {
        Node::Plus(l, r) => {
            let a = minimal_text(*l, false);
            let b = minimal_text(*r, false);
            lemma_placed_split(s, q, a, '+', b);
            assert(scan(s, q + a.len()) == (Token::PLUS, q + a.len() + 1));
            lemma_expr_rest(s, *l, q, acc);
            lemma_expr_rest(s, *r, q + a.len() + 1, fold_sum(acc, *l));
        },
        _ => {
            assert(minimal_text(e, false) == minimal_text(e, true));
            lemma_term(s, e, q);
            assert(s[q] == minimal_text(e, true)[0]);
            lemma_progress(s, (Token::PLUS, q), q);
            lemma_progress(s, (Token::PLUS, q), q + n);
        },
    }
}

/// Parsing the minimal-parentheses text of an expression whose literals are
/// digits succeeds, and the tree it gives has the value of the expression.
pub proof fn lemma_minimal_text_reparses(e: Node)
    requires
        digit_literals(e),
    ensures
        parse_text(minimal_text(e, false)) is Ok,
        value(parse_text(minimal_text(e, false))->Ok_0) == value(e),
{
    let s = minimal_text(e, false);
    assert(s.subrange(0, s.len() as int) == s);
    lemma_scan_moves(s, s.len() as int);
    lemma_expr(s, e, 0);
    lemma_reparse_value(e);
}

/// What a parsing rule gives, when it succeeds, has digit literals.
pub open spec fn digits_if_ok(r: Result<(Node, ScanState), ParseError>) -> bool {
    r matches Ok((e, _)) ==> digit_literals(e)
}

proof fn lemma_factor_digits(s: Seq<char>, st: ScanState)
    ensures
        digits_if_ok(parse_factor(s, st)),
    decreases measure(s, st), 0int,
{
    if st.0 == Token::OPEN && progress(s, st, advance(s, st)) {
        lemma_expr_digits(s, advance(s, st));
    }
}

proof fn lemma_term_rest_digits(s: Seq<char>, left: Node, st: ScanState)
    requires
        digit_literals(left),
    ensures
        digits_if_ok(parse_term_rest(s, left, st)),
    decreases measure(s, st), 1int,
{
    let next = advance(s, st);
    if st.0 == Token::MULT && progress(s, st, next) {
        lemma_factor_digits(s, next);
        if let Ok((right, after)) = parse_factor(s, next) {
            if progress(s, st, after) {
                lemma_term_rest_digits(s, Node::Mult(Box::new(left), Box::new(right)), after);
            }
        }
    }
}

proof fn lemma_term_digits(s: Seq<char>, st: ScanState)
    ensures
        digits_if_ok(parse_term(s, st)),
    decreases measure(s, st), 2int,
{
    lemma_factor_digits(s, st);
    if let Ok((left, after)) = parse_factor(s, st) {
        if progress(s, st, after) {
            lemma_term_rest_digits(s, left, after);
        }
    }
}

proof fn lemma_expr_rest_digits(s: Seq<char>, left: Node, st: ScanState)
    requires
        digit_literals(left),
    ensures
        digits_if_ok(parse_expr_rest(s, left, st)),
    decreases measure(s, st), 3int,
{
    let next = advance(s, st);
    if st.0 == Token::PLUS && progress(s, st, next) {
        lemma_term_digits(s, next);
        if let Ok((right, after)) = parse_term(s, next) {
            if progress(s, st, after) {
                lemma_expr_rest_digits(s, Node::Plus(Box::new(left), Box::new(right)), after);
            }
        }
    }
}

proof fn lemma_expr_digits(s: Seq<char>, st: ScanState)
    ensures
        digits_if_ok(parse_expr(s, st)),
    decreases measure(s, st), 4int,
{
    lemma_term_digits(s, st);
    if let Ok((left, after)) = parse_term(s, st) {
        if progress(s, st, after) {
            lemma_expr_rest_digits(s, left, after);
        }
    }
}

/// Parsing the minimal-parentheses text of a parsed expression succeeds and
/// gives an expression of the same value.
pub proof fn lemma_parse_print_parse(s: Seq<char>)
    requires
        parse_text(s) is Ok,
    ensures
        parse_text(minimal_text(parse_text(s)->Ok_0, false)) is Ok,
        value(parse_text(minimal_text(parse_text(s)->Ok_0, false))->Ok_0) == value(parse_text(s)->Ok_0),
{
    lemma_expr_digits(s, scan(s, 0));
    lemma_minimal_text_reparses(parse_text(s)->Ok_0);
}

} // verus!
