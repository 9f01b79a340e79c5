//! A recursive-descent parser over the grammar
//!
//! ```text
//! E  ::= T E'        E' ::= + T E' | (nothing)
//! T  ::= F T'        T' ::= * F T' | (nothing)
//! F  ::= 0 | 1 | 2 | ( E )
//! ```
//!
//! `E'` and `T'` fold repeated operators into left-leaning trees, so that both
//! operators associate to the left and `*` binds tighter than `+`.
use vstd::prelude::*;
use crate::ast::Node;
use crate::decimal::{decimal, usize_text};
use crate::tokenizer::{Token, Tokenizer, scan, lemma_scan_moves, token_text};

verus! {

/// Why a text is not an expression.
#[derive(PartialEq, Eq, Structural, Clone, Copy, Debug)]
pub enum ParseError {
    /// `token` stands where a literal or `(` was expected; `column` is the
    /// cursor just past it.
    UnexpectedToken { token: Token, column: usize },
    /// The parenthesis whose cursor is `column` is not closed after its expression.
    UnclosedParen { column: usize },
}

/// The human-readable text of a syntax error.
pub open spec fn parse_error_text(e: ParseError) -> Seq<char> {
    match e {
        ParseError::UnexpectedToken { token, column } => "Unexpected token '"@ + token_text(token)
            + "' at column "@ + decimal(column as int),
        ParseError::UnclosedParen { column } => "Unclosed parenthesis at column "@ + decimal(column as int),
    }
}

impl ParseError {
    /// The column the error is reported at.
    pub fn column(&self) -> (r: usize)
        ensures
            r == match *self {
                ParseError::UnexpectedToken { column, .. } => column,
                ParseError::UnclosedParen { column } => column,
            },
    {
        match self {
            ParseError::UnexpectedToken { column, .. } => *column,
            ParseError::UnclosedParen { column } => *column,
        }
    }

    /// The error as a human-readable message.
    pub fn message(&self) -> (r: String)
        ensures
            r@ == parse_error_text(*self),
    {
        match self {
            ParseError::UnexpectedToken { token, column } => {
                let mut s = String::from_str("Unexpected token '");
                s.append(token.show());
                s.append("' at column ");
                let c = usize_text(*column);
                s.append(c.as_str());
                s
            },
            ParseError::UnclosedParen { column } => {
                let mut s = String::from_str("Unclosed parenthesis at column ");
                let c = usize_text(*column);
                s.append(c.as_str());
                s
            },
        }
    }
}

/// A point of the scan: the current token and the cursor just past it.
pub type ScanState = (Token, int);

/// What is left to read from a point of the scan. Reading a token that is not
/// the end makes it smaller.
pub open spec fn measure(s: Seq<char>, st: ScanState) -> int {
    2 * (s.len() - st.1) + if st.0 == Token::EOS { 0int } else { 1int }
}

/// The point of the scan after the current token has been read.
pub open spec fn advance(s: Seq<char>, st: ScanState) -> ScanState {
    scan(s, st.1)
}

/// Whether `next` is a point from which a parsing rule started at `st` may go
/// on: strictly closer to the end. Every rule that succeeds reads a token, so
/// this holds wherever it is asked.
pub open spec fn progress(s: Seq<char>, st: ScanState, next: ScanState) -> bool {
    0 <= measure(s, next) < measure(s, st)
}

/// The parse of a result that has not moved the scan forward, which cannot
/// come about.
pub open spec fn stalled(st: ScanState) -> ParseError {
    ParseError::UnexpectedToken { token: st.0, column: st.1 as usize }
}

/// `F ::= 0 | 1 | 2 | ( E )` at `st`: the tree and the point after it, or the error.
pub open spec fn parse_factor(s: Seq<char>, st: ScanState) -> Result<(Node, ScanState), ParseError>
    decreases measure(s, st), 0int,
{
    match st.0 {
        Token::ZERO => Ok((Node::Int(0), advance(s, st))),
        Token::ONE => Ok((Node::Int(1), advance(s, st))),
        Token::TWO => Ok((Node::Int(2), advance(s, st))),
        Token::OPEN => {
            let inner = advance(s, st);
            if progress(s, st, inner) {
                match parse_expr(s, inner) {
                    Ok((e, after)) => if after.0 == Token::CLOSE {
                        Ok((e, advance(s, after)))
                    } else {
                        Err(ParseError::UnclosedParen { column: st.1 as usize })
                    },
                    Err(err) => Err(err),
                }
            } else {
                Err(stalled(st))
            }
        },
        _ => Err(ParseError::UnexpectedToken { token: st.0, column: st.1 as usize }),
    }
}

/// `T' ::= * F T' | (nothing)` at `st`, with `left` read so far.
pub open spec fn parse_term_rest(s: Seq<char>, left: Node, st: ScanState) -> Result<(Node, ScanState), ParseError>
    decreases measure(s, st), 1int,
{
    if st.0 == Token::MULT {
        let next = advance(s, st);
        if progress(s, st, next) {
            match parse_factor(s, next) {
                Ok((right, after)) => if progress(s, st, after) {
                    parse_term_rest(s, Node::Mult(Box::new(left), Box::new(right)), after)
                } else {
                    Err(stalled(st))
                },
                Err(err) => Err(err),
            }
        } else {
            Err(stalled(st))
        }
    } else {
        Ok((left, st))
    }
}

/// `T ::= F T'` at `st`.
pub open spec fn parse_term(s: Seq<char>, st: ScanState) -> Result<(Node, ScanState), ParseError>
    decreases measure(s, st), 2int,
{
    match parse_factor(s, st) {
        Ok((left, after)) => if progress(s, st, after) {
            parse_term_rest(s, left, after)
        } else {
            Err(stalled(st))
        },
        Err(err) => Err(err),
    }
}

/// `E' ::= + T E' | (nothing)` at `st`, with `left` read so far.
pub open spec fn parse_expr_rest(s: Seq<char>, left: Node, st: ScanState) -> Result<(Node, ScanState), ParseError>
    decreases measure(s, st), 3int,
{
    if st.0 == Token::PLUS {
        let next = advance(s, st);
        if progress(s, st, next) {
            match parse_term(s, next) {
                Ok((right, after)) => if progress(s, st, after) {
                    parse_expr_rest(s, Node::Plus(Box::new(left), Box::new(right)), after)
                } else {
                    Err(stalled(st))
                },
                Err(err) => Err(err),
            }
        } else {
            Err(stalled(st))
        }
    } else {
        Ok((left, st))
    }
}

/// `E ::= T E'` at `st`.
pub open spec fn parse_expr(s: Seq<char>, st: ScanState) -> Result<(Node, ScanState), ParseError>
    decreases measure(s, st), 4int,
{
    match parse_term(s, st) {
        Ok((left, after)) => if progress(s, st, after) {
            parse_expr_rest(s, left, after)
        } else {
            Err(stalled(st))
        },
        Err(err) => Err(err),
    }
}

/// The tree that the text `s` parses to, or the error. Input after a complete
/// expression is not looked at.
pub open spec fn parse_text(s: Seq<char>) -> Result<Node, ParseError> {
    outcome(parse_expr(s, scan(s, 0)))
}

/// A parse result without the point where it stopped.
pub open spec fn outcome(r: Result<(Node, ScanState), ParseError>) -> Result<Node, ParseError> {
    match r {
        Ok((e, _)) => Ok(e),
        Err(err) => Err(err),
    }
}

/// What a parsing rule run from `before` is owed: the result of the rule's
/// spec (`expected`), with the scan left just after what it read.
pub open spec fn delivers(
    s: Seq<char>,
    before: ScanState,
    r: Result<Node, ParseError>,
    expected: Result<(Node, ScanState), ParseError>,
    after: ScanState,
) -> bool {
    &&& r == outcome(expected)
    &&& expected matches Ok((_, st)) ==> after == st && measure(s, after) <= measure(s, before)
}

/// A parser over a fixed text, positioned on its current token.
pub struct Parser {
    t: Tokenizer,
}

impl Parser {
    /// The text being parsed.
    pub closed spec fn input(&self) -> Seq<char> {
        self.t.chars()
    }

    /// The current point of the scan.
    pub closed spec fn state(&self) -> ScanState {
        (self.t.current(), self.t.cursor())
    }

    pub closed spec fn wf(&self) -> bool {
        self.t.wf()
    }

    /// A parser positioned on the first token of `s`.
    pub fn new(s: &str) -> (p: Parser)
        ensures
            p.wf(),
            p.input() == s@,
            p.state() == scan(s@, 0),
    {
        Parser { t: Tokenizer::new(s) }
    }

    /// Parses an expression from the current token on.
    pub fn parse(&mut self) -> (r: Result<Node, ParseError>)
        requires
            old(self).wf(),
        ensures
            r == outcome(parse_expr(old(self).input(), old(self).state())),
    {
        self.parse_e()
    }

    proof fn lemma_advance(&self)
        requires
            self.wf(),
            self.state().0 != Token::EOS,
        ensures
            progress(self.input(), self.state(), advance(self.input(), self.state())),
    {
        lemma_scan_moves(self.input(), self.state().1);
    }

    fn next(&mut self)
        requires
            old(self).wf(),
        ensures
            final(self).wf(),
            final(self).input() == old(self).input(),
            final(self).state() == advance(old(self).input(), old(self).state()),
            old(self).state().0 != Token::EOS ==> progress(old(self).input(), old(self).state(), final(self).state()),
    {
        proof {
            if self.state().0 != Token::EOS {
                self.lemma_advance();
            }
        }
        self.t.next_token();
    }

    fn parse_e(&mut self) -> (r: Result<Node, ParseError>)
        requires
            old(self).wf(),
        ensures
            final(self).wf(),
            final(self).input() == old(self).input(),
            delivers(old(self).input(), old(self).state(), r, parse_expr(old(self).input(), old(self).state()), final(self).state()),
            r is Ok ==> measure(old(self).input(), final(self).state()) < measure(old(self).input(), old(self).state()),
        decreases measure(self.input(), self.state()), 4int,
    {
        match self.parse_t() {
            Err(err) => Err(err),
            Ok(left) => self.parse_e2(left),
        }
    }

    fn parse_e2(&mut self, left: Node) -> (r: Result<Node, ParseError>)
        requires
            old(self).wf(),
        ensures
            final(self).wf(),
            final(self).input() == old(self).input(),
            delivers(old(self).input(), old(self).state(), r, parse_expr_rest(old(self).input(), left, old(self).state()), final(self).state()),
        decreases measure(self.input(), self.state()), 3int,
    {
        let ghost s = self.input();
        let ghost start = self.state();
        let ghost expected = parse_expr_rest(s, left, start);
        let mut acc = left;
        while self.t.current_token() == Token::PLUS
            invariant
                self.wf(),
                self.input() == s,
                s == old(self).input(),
                start == old(self).state(),
                expected == parse_expr_rest(s, left, start),
                parse_expr_rest(s, acc, self.state()) == expected,
                measure(s, self.state()) <= measure(s, start),
            decreases measure(s, self.state()),
        {
            let ghost here = self.state();
            self.next();
            match self.parse_t() {
                Err(err) => {
                    return Err(err);
                },
                Ok(right) => {
                    assert(progress(s, here, self.state()));
                    acc = Node::Plus(Box::new(acc), Box::new(right));
                },
            }
        }
        Ok(acc)
    }

    fn parse_t(&mut self) -> (r: Result<Node, ParseError>)
        requires
            old(self).wf(),
        ensures
            final(self).wf(),
            final(self).input() == old(self).input(),
            delivers(old(self).input(), old(self).state(), r, parse_term(old(self).input(), old(self).state()), final(self).state()),
            r is Ok ==> measure(old(self).input(), final(self).state()) < measure(old(self).input(), old(self).state()),
        decreases measure(self.input(), self.state()), 2int,
    {
        match self.parse_f() {
            Err(err) => Err(err),
            Ok(left) => self.parse_t2(left),
        }
    }

    fn parse_t2(&mut self, left: Node) -> (r: Result<Node, ParseError>)
        requires
            old(self).wf(),
        ensures
            final(self).wf(),
            final(self).input() == old(self).input(),
            delivers(old(self).input(), old(self).state(), r, parse_term_rest(old(self).input(), left, old(self).state()), final(self).state()),
        decreases measure(self.input(), self.state()), 1int,
    {
        let ghost s = self.input();
        let ghost start = self.state();
        let ghost expected = parse_term_rest(s, left, start);
        let mut acc = left;
        while self.t.current_token() == Token::MULT
            invariant
                self.wf(),
                self.input() == s,
                s == old(self).input(),
                start == old(self).state(),
                expected == parse_term_rest(s, left, start),
                parse_term_rest(s, acc, self.state()) == expected,
                measure(s, self.state()) <= measure(s, start),
            decreases measure(s, self.state()),
        {
            let ghost here = self.state();
            self.next();
            match self.parse_f() {
                Err(err) => {
                    return Err(err);
                },
                Ok(right) => {
                    assert(progress(s, here, self.state()));
                    acc = Node::Mult(Box::new(acc), Box::new(right));
                },
            }
        }
        Ok(acc)
    }

    fn parse_f(&mut self) -> (r: Result<Node, ParseError>)
        requires
            old(self).wf(),
        ensures
            final(self).wf(),
            final(self).input() == old(self).input(),
            delivers(old(self).input(), old(self).state(), r, parse_factor(old(self).input(), old(self).state()), final(self).state()),
            r is Ok ==> measure(old(self).input(), final(self).state()) < measure(old(self).input(), old(self).state()),
        decreases measure(self.input(), self.state()), 0int,
    {
        let pos: usize = self.t.position();
        match self.t.current_token() {
            Token::ZERO => {
                self.next();
                Ok(Node::Int(0))
            },
            Token::ONE => {
                self.next();
                Ok(Node::Int(1))
            },
            Token::TWO => {
                self.next();
                Ok(Node::Int(2))
            },
            Token::OPEN => {
                self.next();
                match self.parse_e() {
                    Err(err) => Err(err),
                    Ok(e) => {
                        if self.t.current_token() != Token::CLOSE {
                            Err(ParseError::UnclosedParen { column: pos })
                        } else {
                            self.next();
                            Ok(e)
                        }
                    },
                }
            },
            token => Err(ParseError::UnexpectedToken { token, column: pos }),
        }
    }
}

} // verus!
