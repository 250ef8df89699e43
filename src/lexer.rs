//! Turns an address expression into tokens, one at a time.

use vstd::prelude::*;
use crate::error::{ParseError, ParseErrorKind};
use crate::token::Token;

verus! {

/// Whether `char::is_alphabetic` holds of a character (Unicode's Alphabetic).
pub uninterp spec fn alphabetic(c: char) -> bool;

/// Unicode's White_Space property, which `char::is_whitespace` tests.
pub open spec fn whitespace(c: char) -> bool {
    let u = c as u32;
    (0x09 <= u <= 0x0D) || u == 0x20 || u == 0x85 || u == 0xA0 || u == 0x1680 || (0x2000 <= u <= 0x200A)
        || u == 0x2028 || u == 0x2029 || u == 0x202F || u == 0x205F || u == 0x3000
}

/// Relies on `char::is_alphabetic`, which depends on the character alone.
#[verifier::external_body]
fn is_alphabetic(c: char) -> (r: bool)
    ensures
        r == alphabetic(c),
{
    c.is_alphabetic()
}

/// Relies on `char::is_whitespace`: the White_Space code points.
#[verifier::external_body]
fn is_whitespace(c: char) -> (r: bool)
    ensures
        r == whitespace(c),
{
    c.is_whitespace()
}

pub open spec fn is_dec_digit(c: char) -> bool {
    '0' <= c && c <= '9'
}

pub open spec fn is_hex_digit(c: char) -> bool {
    is_dec_digit(c) || ('a' <= c && c <= 'f') || ('A' <= c && c <= 'F')
}

/// The value of a hexadecimal digit (a decimal digit included).
pub open spec fn digit_value(c: char) -> int {
    if is_dec_digit(c) {
        c as int - '0' as int
    } else if 'a' <= c && c <= 'f' {
        c as int - 'a' as int + 10
    } else {
        c as int - 'A' as int + 10
    }
}

/// The number that the digits `w` write in base `radix`.
pub open spec fn digits_value(w: Seq<char>, radix: int) -> int
    decreases w.len(),
{
    if w.len() == 0 {
        0
    } else {
        digits_value(w.drop_last(), radix) * radix + digit_value(w.last())
    }
}

/// A character that continues a word: a hex digit, a letter, or `.`.
pub open spec fn is_word_char(c: char) -> bool {
    is_hex_digit(c) || alphabetic(c) || c == '.'
}

/// The first position at or after `p` that is not whitespace.
pub open spec fn skip_ws(s: Seq<char>, p: int) -> int
    decreases s.len() - p,
{
    if 0 <= p < s.len() && whitespace(s[p]) {
        skip_ws(s, p + 1)
    } else {
        p
    }
}

/// The first position at or after `p` that does not continue a word.
pub open spec fn word_end(s: Seq<char>, p: int) -> int
    decreases s.len() - p,
{
    if 0 <= p < s.len() && is_word_char(s[p]) {
        word_end(s, p + 1)
    } else {
        p
    }
}

pub open spec fn single_char_token(c: char) -> Option<Token> {
    if c == '(' {
        Some(Token::LParent)
    } else if c == ')' {
        Some(Token::RParent)
    } else if c == '[' {
        Some(Token::OpenBrackets)
    } else if c == ']' {
        Some(Token::CloseBrackets)
    } else if c == '+' {
        Some(Token::Add)
    } else if c == '-' {
        Some(Token::Sub)
    } else if c == '*' {
        Some(Token::Mul)
    } else if c == '/' {
        Some(Token::Div)
    } else if c == '^' {
        Some(Token::Pow)
    } else if c == '=' {
        Some(Token::Equals)
    } else {
        None
    }
}

/// Digits that are all valid in base `radix` (10 or 16) and fit an `isize`.
pub open spec fn number_fits(w: Seq<char>, radix: int) -> bool {
    &&& w.len() > 0
    &&& forall|i: int|
        0 <= i < w.len() ==> if radix == 16 {
            is_hex_digit(#[trigger] w[i])
        } else {
            is_dec_digit(w[i])
        }
    &&& digits_value(w, radix) <= isize::MAX
}

/// What the word `w`, starting at offset `start`, lexes to.
pub open spec fn word_token(w: Seq<char>, start: int, r: Result<Token, ParseError>) -> bool {
    if w.len() >= 2 && w[0] == '0' && (w[1] == 'x' || w[1] == 'X') {
        let d = w.subrange(2, w.len() as int);
        if d.contains('.') {
            r == Err::<Token, ParseError>(ParseError::Syntax(ParseErrorKind::DotInNumber(start as usize)))
        } else if number_fits(d, 16) {
            r == Ok::<Token, ParseError>(Token::Number(digits_value(d, 16) as isize))
        } else {
            r == Err::<Token, ParseError>(ParseError::Syntax(ParseErrorKind::MalformedNumber(start as usize)))
        }
    } else if w.contains('.') {
        r matches Ok(Token::ModuleSymbol(t)) && t@ == w
    } else if forall|i: int| 0 <= i < w.len() ==> is_dec_digit(#[trigger] w[i]) {
        if number_fits(w, 10) {
            r == Ok::<Token, ParseError>(Token::Number(digits_value(w, 10) as isize))
        } else {
            r == Err::<Token, ParseError>(ParseError::Syntax(ParseErrorKind::MalformedNumber(start as usize)))
        }
    } else {
        r matches Ok(Token::Symbol(t)) && t@ == w
    }
}

/// The token read from `s` at position `p`, and the position `q` after it.
pub open spec fn lexes(s: Seq<char>, p: int, r: Result<Token, ParseError>, q: int) -> bool {
    let b = skip_ws(s, p);
    if b >= s.len() {
        r == Ok::<Token, ParseError>(Token::Eof) && q == b
    } else if single_char_token(s[b]) is Some {
        r == Ok::<Token, ParseError>(single_char_token(s[b])->0) && q == b + 1
    } else if is_hex_digit(s[b]) || alphabetic(s[b]) {
        q == word_end(s, b) && word_token(s.subrange(b, q), b, r)
    } else {
        r == Err::<Token, ParseError>(ParseError::Syntax(ParseErrorKind::UnknownCharacter(s[b], b as usize)))
            && q == b
    }
}

pub struct Lexer<'a> {
    pub src: &'a str,
    /// Offset of the next character, counted in characters.
    pub pos: usize,
    /// Number of characters in `src`.
    pub len: usize,
    /// Set once a token could not be read.
    pub error: bool,
}

proof fn lemma_skip_ws_bounds(s: Seq<char>, p: int)
    requires
        0 <= p <= s.len(),
    ensures
        p <= skip_ws(s, p) <= s.len(),
        skip_ws(s, p) < s.len() ==> !whitespace(s[skip_ws(s, p)]),
    decreases s.len() - p,
{
    if p < s.len() && whitespace(s[p]) {
        lemma_skip_ws_bounds(s, p + 1);
    }
}

proof fn lemma_digits_value_mono(w: Seq<char>, radix: int, k: int)
    requires
        radix >= 2,
        0 <= k <= w.len(),
        forall|i: int| 0 <= i < w.len() ==> is_hex_digit(#[trigger] w[i]),
    ensures
        0 <= digits_value(w.subrange(0, k), radix) <= digits_value(w, radix),
    decreases w.len(),
{
    if w.len() > 0 {
        if k == w.len() {
            assert(w.subrange(0, k) == w);
            lemma_digits_value_mono(w.drop_last(), radix, 0);
        } else {
            assert(w.drop_last().subrange(0, k) == w.subrange(0, k));
            lemma_digits_value_mono(w.drop_last(), radix, k);
        }
        let v = digits_value(w.drop_last(), radix);
        assert(v <= v * radix) by (nonlinear_arith)
            requires
                v >= 0,
                radix >= 2,
        ;
    } else {
        assert(w.subrange(0, k) =~= w);
    }
}

/// Whether the characters of `a` and `b` are the same.
pub fn str_eq(a: &str, b: &str) -> (r: bool)
    ensures
        r == (a@ == b@),
{
    let n = a.unicode_len();
    if n != b.unicode_len() {
        return false;
    }
    let mut i: usize = 0;
    while i < n
        invariant
            n == a@.len() == b@.len(),
            i <= n,
            forall|j: int| 0 <= j < i ==> a@[j] == b@[j],
        decreases n - i,
    {
        if a.get_char(i) != b.get_char(i) {
            return false;
        }
        i = i + 1;
    }
    assert(a@ =~= b@);
    true
}

impl<'a> Lexer<'a> {
    pub open spec fn wf(&self) -> bool {
        self.len == self.src@.len() && self.pos <= self.len
    }

    pub fn new(src: &'a str) -> (r: Lexer<'a>)
        ensures
            r.wf(),
            r.src == src,
            r.pos == 0,
            !r.error,
    {
        Lexer { src, pos: 0, len: src.unicode_len(), error: false }
    }

    fn consume_whitespace(&mut self)
        requires
            old(self).wf(),
        ensures
            final(self).wf(),
            final(self).src == old(self).src,
            final(self).error == old(self).error,
            final(self).pos == skip_ws(old(self).src@, old(self).pos as int),
    {
        proof {
            lemma_skip_ws_bounds(self.src@, self.pos as int);
        }
        while self.pos < self.len && is_whitespace(self.src.get_char(self.pos))
            invariant
                self.wf(),
                self.src == old(self).src,
                self.error == old(self).error,
                skip_ws(self.src@, self.pos as int) == skip_ws(old(self).src@, old(self).pos as int),
            decreases self.len - self.pos,
        {
            self.pos = self.pos + 1;
        }
    }

    /// The value of the digits between `from` and `to` in base `radix`, if
    /// they are all digits of that base and the number fits an `isize`.
    fn read_number(&self, from: usize, to: usize, radix: u32) -> (r: Option<isize>)
        requires
            self.wf(),
            from <= to <= self.len,
            radix == 10 || radix == 16,
        ensures
            r is Some <==> number_fits(self.src@.subrange(from as int, to as int), radix as int),
            r is Some ==> r->0 == digits_value(self.src@.subrange(from as int, to as int), radix as int),
    {
        let ghost w = self.src@.subrange(from as int, to as int);
        if from == to {
            return None;
        }
        let mut acc: isize = 0;
        let mut i: usize = from;
        while i < to
            invariant
                self.wf(),
                from <= i <= to <= self.len,
                w == self.src@.subrange(from as int, to as int),
                radix == 10 || radix == 16,
                forall|j: int| 0 <= j < i - from ==> if radix == 16 {
                    is_hex_digit(#[trigger] w[j])
                } else {
                    is_dec_digit(w[j])
                },
                acc as int == digits_value(w.subrange(0, i - from), radix as int),
                acc >= 0,
            decreases to - i,
        {
            let c = self.src.get_char(i);
            let is_digit = if radix == 16 {
                ('0' <= c && c <= '9') || ('a' <= c && c <= 'f') || ('A' <= c && c <= 'F')
            } else {
                '0' <= c && c <= '9'
            };
            if !is_digit {
                assert(w[i - from] == c);
                return None;
            }
            let d: isize = if '0' <= c && c <= '9' {
                (c as u32 - '0' as u32) as isize
            } else if 'a' <= c && c <= 'f' {
                (c as u32 - 'a' as u32 + 10) as isize
            } else {
                (c as u32 - 'A' as u32 + 10) as isize
            };
            let ghost k = i - from;
            assert(w.subrange(0, k + 1).drop_last() =~= w.subrange(0, k));
            assert(w.subrange(0, k + 1).last() == w[k]);
            let next = match acc.checked_mul(radix as isize) {
                Some(m) => m.checked_add(d),
                None => None,
            };
            match next {
                Some(v) => {
                    acc = v;
                },
                None => {
                    proof {
                        assert(digits_value(w.subrange(0, k + 1), radix as int) == acc * radix + d);
                        assert(acc * radix + d > isize::MAX) by (nonlinear_arith)
                            requires
                                acc >= 0,
                                d >= 0,
                                radix > 0,
                                acc * radix > isize::MAX || acc * radix + d > isize::MAX,
                        ;
                        if forall|j: int| 0 <= j < w.len() ==> is_hex_digit(#[trigger] w[j]) {
                            lemma_digits_value_mono(w, radix as int, k + 1);
                        }
                    }
                    return None;
                },
            }
            i = i + 1;
        }
        assert(w.subrange(0, (to - from) as int) =~= w);
        Some(acc)
    }

    fn word_char_at(&self, i: usize) -> (r: bool)
        requires
            self.wf(),
            i < self.len,
        ensures
            r == is_word_char(self.src@[i as int]),
    {
        let d = self.src.get_char(i);
        ('0' <= d && d <= '9') || ('a' <= d && d <= 'f') || ('A' <= d && d <= 'F') || d == '.'
            || is_alphabetic(d)
    }

    /// Whether a `.` stands between `from` and `to`.
    fn has_dot(&self, from: usize, to: usize) -> (r: bool)
        requires
            self.wf(),
            from <= to <= self.len,
        ensures
            r == self.src@.subrange(from as int, to as int).contains('.'),
    {
        let ghost w = self.src@.subrange(from as int, to as int);
        let mut i: usize = from;
        while i < to
            invariant
                self.wf(),
                from <= i <= to <= self.len,
                w == self.src@.subrange(from as int, to as int),
                forall|j: int| 0 <= j < i - from ==> w[j] != '.',
            decreases to - i,
        {
            if self.src.get_char(i) == '.' {
                assert(w[i - from] == '.');
                return true;
            }
            i = i + 1;
        }
        false
    }

    /// Whether every character between `from` and `to` is a decimal digit.
    fn all_decimal(&self, from: usize, to: usize) -> (r: bool)
        requires
            self.wf(),
            from <= to <= self.len,
        ensures
            r == forall|j: int|
                0 <= j < to - from ==> is_dec_digit(#[trigger] self.src@.subrange(from as int, to as int)[j]),
    {
        let ghost w = self.src@.subrange(from as int, to as int);
        let mut i: usize = from;
        while i < to
            invariant
                self.wf(),
                from <= i <= to <= self.len,
                w == self.src@.subrange(from as int, to as int),
                forall|j: int| 0 <= j < i - from ==> is_dec_digit(#[trigger] w[j]),
            decreases to - i,
        {
            let c = self.src.get_char(i);
            if !('0' <= c && c <= '9') {
                assert(w[i - from] == c);
                return false;
            }
            i = i + 1;
        }
        true
    }

    /// Reads the next token. Whitespace before it is skipped; at the end of
    /// the input the token is `Eof`, however often it is asked for.
    pub fn next_token(&mut self) -> (r: Result<Token, ParseError>)
        requires
            old(self).wf(),
        ensures
            final(self).wf(),
            final(self).src == old(self).src,
            old(self).pos <= final(self).pos,
            lexes(old(self).src@, old(self).pos as int, r, final(self).pos as int),
            r is Err ==> final(self).error,
            r is Ok ==> final(self).error == old(self).error,
            r matches Ok(t) && !(t is Eof) ==> old(self).pos < final(self).pos,
    {
        let ghost s = self.src@;
        proof {
            lemma_skip_ws_bounds(s, self.pos as int);
        }
        self.consume_whitespace();
        if self.pos >= self.len {
            return Ok(Token::Eof);
        }
        let b = self.pos;
        let c = self.src.get_char(b);
        let single = if c == '(' {
            Some(Token::LParent)
        } else if c == ')' {
            Some(Token::RParent)
        } else if c == '[' {
            Some(Token::OpenBrackets)
        } else if c == ']' {
            Some(Token::CloseBrackets)
        } else if c == '+' {
            Some(Token::Add)
        } else if c == '-' {
            Some(Token::Sub)
        } else if c == '*' {
            Some(Token::Mul)
        } else if c == '/' {
            Some(Token::Div)
        } else if c == '^' {
            Some(Token::Pow)
        } else if c == '=' {
            Some(Token::Equals)
        } else {
            None
        };
        if let Some(t) = single {
            self.pos = b + 1;
            return Ok(t);
        }
        let hex = ('0' <= c && c <= '9') || ('a' <= c && c <= 'f') || ('A' <= c && c <= 'F');
        if !(hex || is_alphabetic(c)) {
            self.error = true;
            return Err(ParseError::Syntax(ParseErrorKind::UnknownCharacter(c, b)));
        }
        let mut e: usize = b + 1;
        while e < self.len && self.word_char_at(e)
            invariant
                self.wf(),
                s == self.src@,
                b < e <= self.len,
                word_end(s, e as int) == word_end(s, b as int),
            decreases self.len - e,
        {
            e = e + 1;
        }
        self.pos = e;
        let ghost w = s.subrange(b as int, e as int);
        if e - b >= 2 && c == '0' && {
            let x = self.src.get_char(b + 1);
            x == 'x' || x == 'X'
        } {
            assert(s.subrange(b + 2, e as int) =~= w.subrange(2, w.len() as int));
            if self.has_dot(b + 2, e) {
                self.error = true;
                return Err(ParseError::Syntax(ParseErrorKind::DotInNumber(b)));
            }
            match self.read_number(b + 2, e, 16) {
                Some(v) => Ok(Token::Number(v)),
                None => {
                    self.error = true;
                    Err(ParseError::Syntax(ParseErrorKind::MalformedNumber(b)))
                },
            }
        } else if self.has_dot(b, e) {
            Ok(Token::ModuleSymbol(self.src.substring_char(b, e).to_owned()))
        } else if self.all_decimal(b, e) {
            match self.read_number(b, e, 10) {
                Some(v) => Ok(Token::Number(v)),
                None => {
                    self.error = true;
                    Err(ParseError::Syntax(ParseErrorKind::MalformedNumber(b)))
                },
            }
        } else {
            Ok(Token::Symbol(self.src.substring_char(b, e).to_owned()))
        }
    }
}

} // verus!
