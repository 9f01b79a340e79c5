//! Turns text into tokens, one at a time, skipping every character that is not
//! part of the language.
use vstd::prelude::*;

verus! {

/// The tokens of the language. Literals carry their value in the tag.
#[derive(PartialEq, Eq, Structural, Clone, Copy, Debug)]
pub enum Token {
    /// End of the input.
    EOS,
    ZERO,
    ONE,
    TWO,
    OPEN,
    CLOSE,
    PLUS,
    MULT,
}

/// The token that a character stands for, if it stands for one.
pub open spec fn token_of(c: char) -> Option<Token> {
    if c == '0' {
        Some(Token::ZERO)
    } else if c == '1' {
        Some(Token::ONE)
    } else if c == '2' {
        Some(Token::TWO)
    } else if c == '(' {
        Some(Token::OPEN)
    } else if c == ')' {
        Some(Token::CLOSE)
    } else if c == '+' {
        Some(Token::PLUS)
    } else if c == '*' {
        Some(Token::MULT)
    } else {
        None
    }
}

/// Scanning `s` from `pos`: the first recognized token at or after `pos`
/// together with the index just past it, or `EOS` with the cursor left at
/// `pos` once the input is exhausted.
pub open spec fn scan(s: Seq<char>, pos: int) -> (Token, int)
    decreases s.len() - pos,
{
    if pos >= s.len() || pos < 0 {
        (Token::EOS, pos)
    } else {
        match token_of(s[pos]) {
            Some(t) => (t, pos + 1),
            None => scan(s, pos + 1),
        }
    }
}

/// What scanning does to the cursor: a real token is found strictly past the
/// cursor, and the end is reached at the end of the input.
pub proof fn lemma_scan_moves(s: Seq<char>, pos: int)
    requires
        0 <= pos <= s.len(),
    ensures
        pos <= scan(s, pos).1 <= s.len(),
        scan(s, pos).0 == Token::EOS ==> scan(s, pos).1 == s.len(),
        scan(s, pos).0 != Token::EOS ==> pos < scan(s, pos).1,
    decreases s.len() - pos,
{
    if pos < s.len() && token_of(s[pos]).is_none() {
        lemma_scan_moves(s, pos + 1);
    }
}

/// The display form of a token: its character, or `EOS` for the end.
pub open spec fn token_text(t: Token) -> Seq<char> {
    match t {
        Token::EOS => seq!['E', 'O', 'S'],
        Token::ZERO => seq!['0'],
        Token::ONE => seq!['1'],
        Token::TWO => seq!['2'],
        Token::OPEN => seq!['('],
        Token::CLOSE => seq![')'],
        Token::PLUS => seq!['+'],
        Token::MULT => seq!['*'],
    }
}

impl Token {
    /// The display form of the token.
    pub fn show(&self) -> (r: &'static str)
        ensures
            r@ == token_text(*self),
    {
        proof {
            reveal_strlit("EOS");
            reveal_strlit("0");
            reveal_strlit("1");
            reveal_strlit("2");
            reveal_strlit("(");
            reveal_strlit(")");
            reveal_strlit("+");
            reveal_strlit("*");
        }
        match self {
            Token::EOS => "EOS",
            Token::ZERO => "0",
            Token::ONE => "1",
            Token::TWO => "2",
            Token::OPEN => "(",
            Token::CLOSE => ")",
            Token::PLUS => "+",
            Token::MULT => "*",
        }
    }
}

fn classify(c: char) -> (r: Option<Token>)
    ensures
        r == token_of(c),
{
    match c {
        '0' => Some(Token::ZERO),
        '1' => Some(Token::ONE),
        '2' => Some(Token::TWO),
        '(' => Some(Token::OPEN),
        ')' => Some(Token::CLOSE),
        '+' => Some(Token::PLUS),
        '*' => Some(Token::MULT),
        _ => None,
    }
}

/// A scanner over a fixed input, positioned on its current token.
pub struct Tokenizer {
    pub token: Token,
    s: Vec<char>,
    pos: usize,
}

impl Tokenizer {
    /// The characters of the input.
    pub closed spec fn chars(&self) -> Seq<char> {
        self.s@
    }

    /// The current token.
    pub closed spec fn current(&self) -> Token {
        self.token
    }

    /// The scan cursor: the index just past the current token.
    pub closed spec fn cursor(&self) -> int {
        self.pos as int
    }

    pub open spec fn wf(&self) -> bool {
        0 <= self.cursor() <= self.chars().len()
    }

    /// A tokenizer over `input`, positioned on its first recognized token.
    pub fn new(input: &str) -> (t: Tokenizer)
        ensures
            t.wf(),
            t.chars() == input@,
            (t.current(), t.cursor()) == scan(input@, 0),
    {
        let n: usize = input.unicode_len();
        let mut s: Vec<char> = Vec::new();
        let mut i: usize = 0;
        while i < n
            invariant
                n == input@.len(),
                i <= n,
                s@ == input@.subrange(0, i as int),
            decreases n - i,
        {
            s.push(input.get_char(i));
            i += 1;
        }
        assert(s@ == input@);
        let mut tokenizer = Tokenizer { token: Token::EOS, s, pos: 0 };
        tokenizer.next_token();
        tokenizer
    }

    /// Moves to the next recognized token, or to `EOS` at the end of the input.
    pub fn next_token(&mut self)
        requires
            old(self).wf(),
        ensures
            final(self).wf(),
            final(self).chars() == old(self).chars(),
            (final(self).current(), final(self).cursor()) == scan(old(self).chars(), old(self).cursor()),
    {
        let len: usize = self.s.len();
        loop
            invariant_except_break
                scan(self.s@, self.pos as int) == scan(old(self).s@, old(self).pos as int),
            invariant
                self.s@ == old(self).s@,
                len == self.s@.len(),
                self.pos <= len,
            ensures
                (self.token, self.pos as int) == scan(old(self).s@, old(self).pos as int),
            decreases len - self.pos,
        {
            if self.pos >= len {
                self.token = Token::EOS;
                break;
            }
            match classify(self.s[self.pos]) {
                Some(token) => {
                    self.token = token;
                    self.pos += 1;
                    break;
                },
                None => {},
            }
            self.pos += 1;
        }
    }

    /// The current token.
    pub fn current_token(&self) -> (r: Token)
        ensures
            r == self.current(),
    {
        self.token
    }

    /// The scan cursor, used as the column of diagnostics.
    pub fn position(&self) -> (r: usize)
        ensures
            r == self.cursor(),
    {
        self.pos
    }
}

} // verus!
