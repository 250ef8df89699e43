//! Precedence-climbing parser of address expressions.

use vstd::prelude::*;
use crate::ast::Node;
use crate::error::{ParseError, ParseErrorKind};
use crate::lexer::{lexes, str_eq, Lexer};
use crate::token::{token_char, token_info, Token};

verus! {

/// What `str::to_lowercase` returns for a string (full Unicode case mapping).
pub uninterp spec fn lower_of(s: Seq<char>) -> Seq<char>;

/// Relies on `str::to_lowercase`, whose result depends on the characters alone.
#[verifier::external_body]
fn lowercase(s: &str) -> (r: String)
    ensures
        r@ == lower_of(s@),
{
    s.to_lowercase()
}

/// The tree a binary operator token builds, if the token is one.
pub open spec fn operation_spec(op: Token, lhs: Box<Node>, rhs: Box<Node>) -> Option<Node> {
    match op {
        Token::Add => Some(Node::Add(lhs, rhs)),
        Token::Sub => Some(Node::Sub(lhs, rhs)),
        Token::Mul => Some(Node::Mul(lhs, rhs)),
        Token::Div => Some(Node::Div(lhs, rhs)),
        Token::Pow => Some(Node::Pow(lhs, rhs)),
        _ => None,
    }
}

/// The tree a call of the function named `lower` (already lower-cased) builds.
pub open spec fn function_spec(lower: Seq<char>, arg: Box<Node>) -> Option<Node> {
    if lower == "sin"@ || lower == "sine"@ {
        Some(Node::Sin(arg))
    } else if lower == "cos"@ || lower == "cosine"@ {
        Some(Node::Cos(arg))
    } else if lower == "sqrt"@ {
        Some(Node::Sqrt(arg))
    } else {
        None
    }
}

/// `t2` holds the tokens of `t`, and maybe more after them.
pub open spec fn extends(t: Seq<Token>, t2: Seq<Token>) -> bool {
    t.len() <= t2.len() && forall|x: int| 0 <= x < t.len() ==> t2[x] == t[x]
}

/// `toks` are the tokens that the lexer reads from the start of `s`, token
/// `k` ending at `ends[k]`.
pub open spec fn lex_chain(s: Seq<char>, toks: Seq<Token>, ends: Seq<int>) -> bool {
    &&& toks.len() == ends.len()
    &&& forall|k: int|
        0 <= k < toks.len() ==> lexes(s, if k == 0 { 0 } else { ends[k - 1] }, Ok(toks[k]), #[trigger] ends[k])
}

/// The lexer fails on the token that starts at `p`.
pub open spec fn lex_fails(s: Seq<char>, p: int) -> bool {
    exists|e: ParseError, q: int| #[trigger] lexes(s, p, Err(e), q)
}

/// Where the lexer stands after the tokens ending at `ends`.
pub open spec fn chain_end(ends: Seq<int>) -> int {
    if ends.len() == 0 {
        0
    } else {
        ends.last()
    }
}

/// The binding power of an operator token.
pub open spec fn power_of(op: Token) -> int {
    match token_info(op) {
        Some((power, _)) => power as int,
        None => 0,
    }
}

/// The binding power that the right operand of `op` is parsed with: one
/// more for a left-associative operator.
pub open spec fn next_prec(op: Token) -> int {
    match token_info(op) {
        Some((power, assoc)) => if assoc == 0 {
            power + 1
        } else {
            power as int
        },
        None => 0,
    }
}

/// The token `t` ends an expression of binding power `prec`.
pub open spec fn stops(t: Token, prec: int) -> bool {
    t is Eof || token_info(t) is None || power_of(t) < prec
}

/// The expression read from the tokens `t` at `i` with binding power at
/// least `prec`, and the position of the token that ends it; `None` where
/// the grammar rejects the tokens (or `fuel` runs out). `first` marks the
/// expression that starts the input, where the end of input reads as zero.
pub open spec fn p_expr(t: Seq<Token>, i: int, prec: int, first: bool, fuel: nat) -> Option<(Node, int)>
    decreases fuel,
{
    if fuel == 0 {
        None
    } else {
        match p_atom(t, i, first, (fuel - 1) as nat) {
            Some((lhs, k)) => p_loop(t, k, prec, lhs, (fuel - 1) as nat),
            None => None,
        }
    }
}

/// The operators and operands that follow `lhs` from `k` on.
pub open spec fn p_loop(t: Seq<Token>, k: int, prec: int, lhs: Node, fuel: nat) -> Option<(Node, int)>
    decreases fuel,
{
    if fuel == 0 || k < 0 || k >= t.len() {
        None
    } else if stops(t[k], prec) {
        Some((lhs, k))
    } else {
        match p_expr(t, k + 1, next_prec(t[k]), false, (fuel - 1) as nat) {
            Some((rhs, m)) => match operation_spec(t[k], Box::new(lhs), Box::new(rhs)) {
                Some(n2) => p_loop(t, m, prec, n2, (fuel - 1) as nat),
                None => None,
            },
            None => None,
        }
    }
}

/// The operand read from the tokens `t` at `i`, and the position after it.
pub open spec fn p_atom(t: Seq<Token>, i: int, first: bool, fuel: nat) -> Option<(Node, int)>
    decreases fuel,
{
    if fuel == 0 || i < 0 || i >= t.len() {
        None
    } else {
        let f = (fuel - 1) as nat;
        match t[i] {
            Token::LParent => match p_expr(t, i + 1, 1, false, f) {
                Some((e, k)) => if 0 <= k < t.len() && t[k] is RParent {
                    Some((e, k + 1))
                } else {
                    None
                },
                None => None,
            },
            Token::OpenBrackets => match p_expr(t, i + 1, 1, false, f) {
                Some((e, k)) => if 0 <= k < t.len() && t[k] is CloseBrackets {
                    Some((Node::Dereference(Box::new(e)), k + 1))
                } else {
                    None
                },
                None => None,
            },
            Token::Number(v) => Some((Node::Number(v), i + 1)),
            Token::Symbol(name) => if i + 1 >= t.len() {
                None
            } else {
                match t[i + 1] {
                    Token::LParent => match p_expr(t, i + 2, 1, false, f) {
                        Some((e, k)) => if 0 <= k < t.len() && t[k] is RParent {
                            match function_spec(lower_of(name@), Box::new(e)) {
                                Some(n) => Some((n, k + 1)),
                                None => None,
                            }
                        } else {
                            None
                        },
                        None => None,
                    },
                    Token::Symbol(s2) => if s2@ == "let"@ && i + 2 < t.len() && t[i + 2] is Equals {
                        match p_expr(t, i + 3, 1, false, f) {
                            Some((e, k)) => Some((Node::Assignment(s2, Box::new(e)), k)),
                            None => None,
                        }
                    } else {
                        None
                    },
                    _ => Some((Node::Var(name), i + 1)),
                }
            },
            Token::ModuleSymbol(m) => Some((Node::ModuleSymbol(m), i + 1)),
            Token::Eof => if first {
                Some((Node::Number(0), i))
            } else {
                None
            },
            _ => None,
        }
    }
}

/// The parse `p` fails, or the token after it is not `close`.
pub open spec fn closes_not(t: Seq<Token>, p: Option<(Node, int)>, close: char) -> bool {
    match p {
        Some((_, k)) => 0 <= k < t.len() && token_char(t[k]) != close,
        None => true,
    }
}

/// A parse stays the same with more fuel and more tokens after it.
proof fn lemma_expr_mono(t: Seq<Token>, t2: Seq<Token>, i: int, prec: int, first: bool, f: nat, f2: nat)
    requires
        extends(t, t2),
        f <= f2,
        p_expr(t, i, prec, first, f) is Some,
    ensures
        p_expr(t2, i, prec, first, f2) == p_expr(t, i, prec, first, f),
    decreases f,
{
    let g = (f - 1) as nat;
    let g2 = (f2 - 1) as nat;
    lemma_atom_mono(t, t2, i, first, g, g2);
    let (lhs, k) = p_atom(t, i, first, g)->0;
    lemma_loop_mono(t, t2, k, prec, lhs, g, g2);
}

proof fn lemma_loop_mono(t: Seq<Token>, t2: Seq<Token>, k: int, prec: int, lhs: Node, f: nat, f2: nat)
    requires
        extends(t, t2),
        f <= f2,
        p_loop(t, k, prec, lhs, f) is Some,
    ensures
        p_loop(t2, k, prec, lhs, f2) == p_loop(t, k, prec, lhs, f),
    decreases f,
{
    assert(t2[k] == t[k]);
    if !stops(t[k], prec) {
        let g = (f - 1) as nat;
        let g2 = (f2 - 1) as nat;
        lemma_expr_mono(t, t2, k + 1, next_prec(t[k]), false, g, g2);
        let (rhs, m) = p_expr(t, k + 1, next_prec(t[k]), false, g)->0;
        let n2 = operation_spec(t[k], Box::new(lhs), Box::new(rhs))->0;
        lemma_loop_mono(t, t2, m, prec, n2, g, g2);
    }
}

proof fn lemma_atom_mono(t: Seq<Token>, t2: Seq<Token>, i: int, first: bool, f: nat, f2: nat)
    requires
        extends(t, t2),
        f <= f2,
        p_atom(t, i, first, f) is Some,
    ensures
        p_atom(t2, i, first, f2) == p_atom(t, i, first, f),
    decreases f,
{
    let g = (f - 1) as nat;
    let g2 = (f2 - 1) as nat;
    assert(t2[i] == t[i]);
    match t[i] {
        Token::LParent => {
            lemma_expr_mono(t, t2, i + 1, 1, false, g, g2);
            let (_e, k) = p_expr(t, i + 1, 1, false, g)->0;
            assert(t2[k] == t[k]);
        },
        Token::OpenBrackets => {
            lemma_expr_mono(t, t2, i + 1, 1, false, g, g2);
            let (_e, k) = p_expr(t, i + 1, 1, false, g)->0;
            assert(t2[k] == t[k]);
        },
        Token::Symbol(name) => {
            assert(t2[i + 1] == t[i + 1]);
            match t[i + 1] {
                Token::LParent => {
                    lemma_expr_mono(t, t2, i + 2, 1, false, g, g2);
                    let (_e, k) = p_expr(t, i + 2, 1, false, g)->0;
                    assert(t2[k] == t[k]);
                },
                Token::Symbol(s2) => {
                    assert(t2[i + 2] == t[i + 2]);
                    lemma_expr_mono(t, t2, i + 3, 1, false, g, g2);
                },
                _ => {},
            }
        },
        _ => {},
    }
}

/// Two parses of the same tokens that both succeed agree.
proof fn lemma_expr_det(t: Seq<Token>, t2: Seq<Token>, i: int, prec: int, first: bool, f: nat, f2: nat)
    requires
        extends(t, t2),
        p_expr(t, i, prec, first, f) is Some,
        p_expr(t2, i, prec, first, f2) is Some,
    ensures
        p_expr(t2, i, prec, first, f2) == p_expr(t, i, prec, first, f),
{
    let m = if f > f2 { f } else { f2 };
    lemma_expr_mono(t, t2, i, prec, first, f, m);
    lemma_expr_mono(t2, t2, i, prec, first, f2, m);
}

proof fn lemma_atom_det(t: Seq<Token>, t2: Seq<Token>, i: int, first: bool, f: nat, f2: nat)
    requires
        extends(t, t2),
        p_atom(t, i, first, f) is Some,
        p_atom(t2, i, first, f2) is Some,
    ensures
        p_atom(t2, i, first, f2) == p_atom(t, i, first, f),
{
    let m = if f > f2 { f } else { f2 };
    lemma_atom_mono(t, t2, i, first, f, m);
    lemma_atom_mono(t2, t2, i, first, f2, m);
}

pub struct AddressParser<'a> {
    /// The token taken last.
    pub curr: Token,
    pub lexer: Lexer<'a>,
    /// A token read ahead and not yet taken.
    pub peeked: Option<Token>,
    /// Every token read so far, the one read ahead included.
    pub seen: Ghost<Seq<Token>>,
    /// Where each of those tokens ends in the source.
    pub ends: Ghost<Seq<int>>,
}

impl<'a> AddressParser<'a> {
    pub open spec fn wf(&self) -> bool {
        &&& self.lexer.wf()
        &&& self.tokens_lexed()
        &&& self.peeked matches Some(t) ==> self.seen@.len() > 0 && self.seen@.last() == t
    }

    /// The tokens seen are those the lexer read from the start of the source;
    /// it stands after the last of them, unless it failed on the next one.
    #[verifier::opaque]
    pub open spec fn tokens_lexed(&self) -> bool {
        &&& lex_chain(self.lexer.src@, self.seen@, self.ends@)
        &&& !self.lexer.error ==> self.lexer.pos == chain_end(self.ends@)
        &&& self.lexer.error ==> lex_fails(self.lexer.src@, chain_end(self.ends@))
    }

    /// How many tokens have been taken.
    pub open spec fn cursor(&self) -> int {
        self.seen@.len() - if self.peeked is Some {
            1int
        } else {
            0int
        }
    }

    /// Characters left to read, counted twice, plus one for a token that was
    /// read ahead and is not the end; each token taken makes it smaller.
    pub open spec fn measure(&self) -> nat {
        (2 * (self.lexer.len - self.lexer.pos) + if self.peeked matches Some(t) && !(t is Eof) {
            1int
        } else {
            0int
        }) as nat
    }

    pub fn new(src: &'a str) -> (r: AddressParser<'a>)
        ensures
            r.wf(),
            r.lexer.src == src,
            r.lexer.pos == 0,
            !r.lexer.error,
            r.peeked is None,
            r.seen@ == Seq::<Token>::empty(),
    {
        reveal(AddressParser::tokens_lexed);
        AddressParser {
            curr: Token::Eof,
            lexer: Lexer::new(src),
            peeked: None,
            seen: Ghost(Seq::empty()),
            ends: Ghost(Seq::empty()),
        }
    }

    /// Parses the whole expression. A tree that comes back is the one the
    /// grammar gives for the tokens read, and those are the tokens that the
    /// lexer reads from the source; an error comes back when the lexer
    /// failed or the grammar rejects the tokens read.
    pub fn parse(&mut self) -> (r: Result<Box<Node>, ParseError>)
        requires
            old(self).wf(),
        ensures
            final(self).wf(),
            final(self).lexer.src == old(self).lexer.src,
            extends(old(self).seen@, final(self).seen@),
            r matches Ok(n) ==> exists|f: nat| #[trigger] p_expr(final(self).seen@, old(self).cursor(), 1, true, f) == Some((*n, final(self).cursor())),
            r is Ok ==> final(self).lexer.error == old(self).lexer.error,
            r is Err ==> final(self).lexer.error || forall|f: nat| #[trigger] p_expr(final(self).seen@, old(self).cursor(), 1, true, f) is None,
    {
        self.expr(1, true)
    }

    fn expr(&mut self, prec: usize, first: bool) -> (r: Result<Box<Node>, ParseError>)
        requires
            old(self).wf(),
        ensures
            final(self).wf(),
            final(self).lexer.src == old(self).lexer.src,
            final(self).measure() <= old(self).measure(),
            extends(old(self).seen@, final(self).seen@),
            r matches Ok(n) ==> exists|f: nat| #[trigger] p_expr(final(self).seen@, old(self).cursor(), prec as int, first, f) == Some((*n, final(self).cursor())),
            r is Ok ==> final(self).lexer.error == old(self).lexer.error,
            r is Err ==> final(self).lexer.error || forall|f: nat| #[trigger] p_expr(final(self).seen@, old(self).cursor(), prec as int, first, f) is None,
        decreases old(self).measure(), 2nat,
    {
        let ghost c0 = self.cursor();
        let lhs = match self.atom(first) {
            Ok(l) => l,
            Err(e) => {
                proof {
                    assert forall|f: nat| #[trigger] p_expr(self.seen@, c0, prec as int, first, f) is None || self.lexer.error by {
                        if f > 0 {
                            assert(p_atom(self.seen@, c0, first, (f - 1) as nat) is None || self.lexer.error);
                        }
                    }
                }
                return Err(e);
            },
        };
        let ghost s1 = self.seen@;
        let ghost c1 = self.cursor();
        let ghost lhs_v = *lhs;
        let ghost f1 = choose|f: nat| #[trigger] p_atom(s1, c0, first, f) == Some((lhs_v, c1));
        let n = match self.expr_loop(prec, lhs) {
            Ok(n) => n,
            Err(e) => {
                proof {
                    let s2 = self.seen@;
                    assert forall|f: nat| #[trigger] p_expr(s2, c0, prec as int, first, f) is None || self.lexer.error by {
                        if f > 0 && p_atom(s2, c0, first, (f - 1) as nat) is Some {
                            lemma_atom_det(s1, s2, c0, first, f1, (f - 1) as nat);
                            assert(p_loop(s2, c1, prec as int, lhs_v, (f - 1) as nat) is None || self.lexer.error);
                        }
                    }
                }
                return Err(e);
            },
        };
        proof {
            let s2 = self.seen@;
            let f2 = choose|f: nat| #[trigger] p_loop(s2, c1, prec as int, lhs_v, f) == Some((*n, self.cursor()));
            let big = if f1 > f2 { f1 } else { f2 };
            lemma_atom_mono(s1, s2, c0, first, f1, big);
            lemma_loop_mono(s2, s2, c1, prec as int, lhs_v, f2, big);
            assert(p_expr(s2, c0, prec as int, first, big + 1) == Some((*n, self.cursor())));
        }
        Ok(n)
    }

    /// The operators after the operand `lhs`, as far as they bind at least
    /// as strongly as `prec`.
    fn expr_loop(&mut self, prec: usize, lhs: Box<Node>) -> (r: Result<Box<Node>, ParseError>)
        requires
            old(self).wf(),
        ensures
            final(self).wf(),
            final(self).lexer.src == old(self).lexer.src,
            final(self).measure() <= old(self).measure(),
            extends(old(self).seen@, final(self).seen@),
            r matches Ok(n) ==> exists|f: nat| #[trigger] p_loop(final(self).seen@, old(self).cursor(), prec as int, *lhs, f) == Some((*n, final(self).cursor())),
            r is Ok ==> final(self).lexer.error == old(self).lexer.error,
            r is Err ==> final(self).lexer.error || forall|f: nat| #[trigger] p_loop(final(self).seen@, old(self).cursor(), prec as int, *lhs, f) is None,
        decreases old(self).measure(), 1nat,
    {
        let ghost c = self.cursor();
        let ghost lhs_v = *lhs;
        let curr = self.peek_token()?;
        let ghost s1 = self.seen@;
        let stop = if curr.is_eof() {
            true
        } else {
            match curr.info() {
                Some((op_prec, _)) => op_prec < prec,
                None => true,
            }
        };
        if stop {
            proof {
                assert(p_loop(s1, c, prec as int, *lhs, 1) == Some((*lhs, c)));
            }
            return Ok(lhs);
        }
        let (op_prec, op_assoc) = match curr.info() {
            Some(info) => info,
            None => return Ok(lhs),
        };
        self.next_token()?;
        let rhs = match if op_assoc == 0 {
            self.expr(op_prec + 1, false)
        } else {
            self.expr(op_prec, false)
        } {
            Ok(r) => r,
            Err(e) => {
                proof {
                    let s3 = self.seen@;
                    assert(s3[c] == s1[c]);
                    assert forall|f: nat| #[trigger] p_loop(s3, c, prec as int, lhs_v, f) is None || self.lexer.error by {
                        if f > 0 {
                            assert(p_expr(s3, c + 1, next_prec(s1[c]), false, (f - 1) as nat) is None || self.lexer.error);
                        }
                    }
                }
                return Err(e);
            },
        };
        let ghost s3 = self.seen@;
        let ghost c3 = self.cursor();
        let ghost rhs_v = *rhs;
        let ghost np = next_prec(s1[c]);
        let ghost fr = choose|f: nat| #[trigger] p_expr(s3, c + 1, np, false, f) == Some((rhs_v, c3));
        let n2 = self.operation(curr, lhs, rhs)?;
        let ghost n2_v = *n2;
        let n = match self.expr_loop(prec, n2) {
            Ok(n) => n,
            Err(e) => {
                proof {
                    let s4 = self.seen@;
                    assert(s4[c] == s1[c]);
                    assert forall|f: nat| #[trigger] p_loop(s4, c, prec as int, lhs_v, f) is None || self.lexer.error by {
                        if f > 0 && p_expr(s4, c + 1, np, false, (f - 1) as nat) is Some {
                            lemma_expr_det(s3, s4, c + 1, np, false, fr, (f - 1) as nat);
                            assert(p_loop(s4, c3, prec as int, n2_v, (f - 1) as nat) is None || self.lexer.error);
                        }
                    }
                }
                return Err(e);
            },
        };
        proof {
            let s4 = self.seen@;
            let fl = choose|f: nat| #[trigger] p_loop(s4, c3, prec as int, n2_v, f) == Some((*n, self.cursor()));
            let big = if fr > fl { fr } else { fl };
            lemma_expr_mono(s3, s4, c + 1, np, false, fr, big);
            lemma_loop_mono(s4, s4, c3, prec as int, n2_v, fl, big);
            assert(s4[c] == s1[c]);
            assert(p_loop(s4, c, prec as int, lhs_v, big + 1) == Some((*n, self.cursor())));
        }
        Ok(n)
    }

    /// The expression between the opening token read ahead, `open`, and the
    /// token `close` that must follow it.
    fn bracketed(&mut self, open: char, close: char) -> (r: Result<Box<Node>, ParseError>)
        requires
            old(self).wf(),
            old(self).peeked matches Some(t) && token_char(t) == open && !(t is Eof),
        ensures
            final(self).wf(),
            final(self).lexer.src == old(self).lexer.src,
            final(self).measure() < old(self).measure(),
            extends(old(self).seen@, final(self).seen@),
            r matches Ok(e) ==> exists|f: nat|
                #[trigger] p_expr(final(self).seen@, old(self).cursor() + 1, 1, false, f) == Some((*e, final(self).cursor() - 1))
                && token_char(final(self).seen@[final(self).cursor() - 1]) == close,
            r is Ok ==> final(self).lexer.error == old(self).lexer.error,
            r is Err ==> final(self).lexer.error || forall|f: nat| closes_not(final(self).seen@, #[trigger] p_expr(final(self).seen@, old(self).cursor() + 1, 1, false, f), close),
        decreases old(self).measure(), 0nat,
    {
        let ghost c = self.cursor();
        let ghost s0 = self.seen@;
        self.expect(open)?;
        let e = match self.expr(1, false) {
            Ok(e) => e,
            Err(err) => {
                return Err(err);
            },
        };
        let ghost s2 = self.seen@;
        let ghost k = self.cursor();
        let ghost fe = choose|f: nat| #[trigger] p_expr(s2, c + 1, 1, false, f) == Some((*e, k));
        match self.expect(close) {
            Ok(()) => {},
            Err(err) => {
                proof {
                    let s3 = self.seen@;
                    assert forall|f: nat| closes_not(s3, #[trigger] p_expr(s3, c + 1, 1, false, f), close) || self.lexer.error by {
                        if p_expr(s3, c + 1, 1, false, f) is Some {
                            lemma_expr_det(s2, s3, c + 1, 1, false, fe, f);
                        }
                    }
                }
                return Err(err);
            },
        }
        proof {
            let s3 = self.seen@;
            lemma_expr_mono(s2, s3, c + 1, 1, false, fe, fe);
        }
        Ok(e)
    }
    /// One operand: a bracketed expression, a dereference, a number, a
    /// function call, a `let` binding, a variable or a module symbol; the
    /// end of input reads as zero where it starts the input.
    fn atom(&mut self, first: bool) -> (r: Result<Box<Node>, ParseError>)
        requires
            old(self).wf(),
        ensures
            final(self).wf(),
            final(self).lexer.src == old(self).lexer.src,
            final(self).measure() <= old(self).measure(),
            extends(old(self).seen@, final(self).seen@),
            r matches Ok(n) ==> exists|f: nat| #[trigger] p_atom(final(self).seen@, old(self).cursor(), first, f) == Some((*n, final(self).cursor())),
            r is Ok ==> final(self).lexer.error == old(self).lexer.error,
            r is Err ==> final(self).lexer.error || forall|f: nat| #[trigger] p_atom(final(self).seen@, old(self).cursor(), first, f) is None,
        decreases old(self).measure(), 1nat,
    {
        let ghost c = self.cursor();
        let head = self.peek_token()?;
        let ghost s1 = self.seen@;
        match head {
            Token::LParent | Token::OpenBrackets => {
                let dereference = head.is_open_bracket();
                let (open, close) = if dereference { ('[', ']') } else { ('(', ')') };
                let e = match self.bracketed(open, close) {
                    Ok(e) => e,
                    Err(err) => {
                        proof {
                            let s3 = self.seen@;
                            assert(s3[c] == s1[c]);
                            assert forall|f: nat| #[trigger] p_atom(s3, c, first, f) is None || self.lexer.error by {
                                if f > 0 {
                                    assert(closes_not(s3, p_expr(s3, c + 1, 1, false, (f - 1) as nat), close) || self.lexer.error);
                                }
                            }
                        }
                        return Err(err);
                    },
                };
                let r = if dereference { Node::Dereference(e).boxed() } else { e };
                proof {
                    let s3 = self.seen@;
                    assert(s3[c] == s1[c]);
                    let fe = choose|f: nat|
                        #[trigger] p_expr(s3, c + 1, 1, false, f) == Some((*e, self.cursor() - 1))
                        && token_char(s3[self.cursor() - 1]) == close;
                    assert(p_atom(s3, c, first, fe + 1) == Some((*r, self.cursor())));
                }
                Ok(r)
            },
            Token::Number(n) => {
                self.next_token()?;
                proof {
                    assert(self.seen@[c] == s1[c]);
                    assert(p_atom(self.seen@, c, first, 1) == Some((Node::Number(n), c + 1)));
                }
                Ok(Node::Number(n).boxed())
            },
            Token::Symbol(symbol) => self.symbol_atom(symbol, first),
            Token::ModuleSymbol(v) => {
                self.next_token()?;
                proof {
                    assert(self.seen@[c] == s1[c]);
                    assert(p_atom(self.seen@, c, first, 1) == Some((Node::ModuleSymbol(v), c + 1)));
                }
                Ok(Node::ModuleSymbol(v).boxed())
            },
            Token::Eof => {
                if first {
                    proof {
                        assert(p_atom(s1, c, first, 1) == Some((Node::Number(0), c)));
                    }
                    Ok(Node::Number(0).boxed())
                } else {
                    Err(ParseError::Syntax(ParseErrorKind::UnrecognizedAtom('E')))
                }
            },
            t => Err(ParseError::Syntax(ParseErrorKind::UnrecognizedAtom(t.to_char()))),
        }
    }

    /// An operand that starts with the identifier `symbol`, read ahead.
    fn symbol_atom(&mut self, symbol: String, first: bool) -> (r: Result<Box<Node>, ParseError>)
        requires
            old(self).wf(),
            old(self).peeked == Some(Token::Symbol(symbol)),
        ensures
            final(self).wf(),
            final(self).lexer.src == old(self).lexer.src,
            final(self).measure() < old(self).measure(),
            extends(old(self).seen@, final(self).seen@),
            r matches Ok(n) ==> exists|f: nat| #[trigger] p_atom(final(self).seen@, old(self).cursor(), first, f) == Some((*n, final(self).cursor())),
            r is Ok ==> final(self).lexer.error == old(self).lexer.error,
            r is Err ==> final(self).lexer.error || forall|f: nat| #[trigger] p_atom(final(self).seen@, old(self).cursor(), first, f) is None,
        decreases old(self).measure(), 0nat,
    {
        let ghost c = self.cursor();
        let ghost s1 = self.seen@;
        self.next_token()?;
        let second = self.peek_token()?;
        let ghost s2 = self.seen@;
        match second {
            Token::LParent => {
                let e = match self.bracketed('(', ')') {
                    Ok(e) => e,
                    Err(err) => {
                        proof {
                            let s3 = self.seen@;
                            assert(s3[c] == s1[c]);
                            assert(s3[c + 1] == s2[c + 1]);
                            assert forall|f: nat| #[trigger] p_atom(s3, c, first, f) is None || self.lexer.error by {
                                if f > 0 {
                                    assert(closes_not(s3, p_expr(s3, c + 2, 1, false, (f - 1) as nat), ')') || self.lexer.error);
                                }
                            }
                        }
                        return Err(err);
                    },
                };
                let ghost s3 = self.seen@;
                let ghost k = self.cursor();
                let ghost e_v = *e;
                let ghost fe = choose|f: nat|
                    #[trigger] p_expr(s3, c + 2, 1, false, f) == Some((e_v, k - 1)) && token_char(s3[k - 1]) == ')';
                let r = self.function(&symbol, e);
                proof {
                    assert(s3[c] == s1[c]);
                    assert(s3[c + 1] == s2[c + 1]);
                    if r is Ok {
                        assert(p_atom(s3, c, first, fe + 1) == Some((*r->Ok_0, k)));
                    } else {
                        assert forall|f: nat| #[trigger] p_atom(s3, c, first, f) is None by {
                            if f > 0 && p_expr(s3, c + 2, 1, false, (f - 1) as nat) is Some {
                                lemma_expr_det(s3, s3, c + 2, 1, false, fe, (f - 1) as nat);
                            }
                        }
                    }
                }
                r
            },
            Token::Symbol(symbol_2) => {
                proof {
                    reveal_strlit("let");
                }
                if !str_eq(symbol_2.as_str(), "let") {
                    proof {
                        assert(s2[c] == s1[c]);
                    }
                    return Err(ParseError::Syntax(ParseErrorKind::TwoConsecutiveSymbols));
                }
                self.next_token()?;
                match self.expect('=') {
                    Ok(()) => {},
                    Err(err) => {
                        proof {
                            let s3 = self.seen@;
                            assert(s3[c] == s1[c]);
                            assert(s3[c + 1] == s2[c + 1]);
                        }
                        return Err(err);
                    },
                }
                let ghost s3 = self.seen@;
                let e = match self.expr(1, false) {
                    Ok(e) => e,
                    Err(err) => {
                        proof {
                            let s4 = self.seen@;
                            assert(s4[c] == s1[c]);
                            assert(s4[c + 1] == s2[c + 1]);
                            assert(s4[c + 2] == s3[c + 2]);
                            assert forall|f: nat| #[trigger] p_atom(s4, c, first, f) is None || self.lexer.error by {
                                if f > 0 {
                                    assert(p_expr(s4, c + 3, 1, false, (f - 1) as nat) is None || self.lexer.error);
                                }
                            }
                        }
                        return Err(err);
                    },
                };
                let ghost k = self.cursor();
                let r = Node::Assignment(symbol_2, e).boxed();
                proof {
                    let s4 = self.seen@;
                    let fe = choose|f: nat| #[trigger] p_expr(s4, c + 3, 1, false, f) == Some((*e, k));
                    assert(s4[c] == s1[c]);
                    assert(s4[c + 1] == s2[c + 1]);
                    assert(s4[c + 2] == s3[c + 2]);
                    assert(p_atom(s4, c, first, fe + 1) == Some((*r, k)));
                }
                Ok(r)
            },
            _ => {
                proof {
                    assert(s2[c] == s1[c]);
                    assert(p_atom(s2, c, first, 1) == Some((Node::Var(symbol), c + 1)));
                }
                Ok(Node::Var(symbol).boxed())
            },
        }
    }

    /// Joins two operands by the operator `op`.
    fn operation(&mut self, op: Token, lhs: Box<Node>, rhs: Box<Node>) -> (r: Result<Box<Node>, ParseError>)
        ensures
            *final(self) == *old(self),
            match operation_spec(op, lhs, rhs) {
                Some(n) => r matches Ok(b) && *b == n,
                None => r == Err::<Box<Node>, ParseError>(
                    ParseError::Syntax(ParseErrorKind::NotAnOperation(token_char(op))),
                ),
            },
    {
        match op {
            Token::Add => Ok(Node::Add(lhs, rhs).boxed()),
            Token::Sub => Ok(Node::Sub(lhs, rhs).boxed()),
            Token::Mul => Ok(Node::Mul(lhs, rhs).boxed()),
            Token::Div => Ok(Node::Div(lhs, rhs).boxed()),
            Token::Pow => Ok(Node::Pow(lhs, rhs).boxed()),
            _ => Err(ParseError::Syntax(ParseErrorKind::NotAnOperation(op.to_char()))),
        }
    }

    /// Applies the function named `op`, in any case, to `arg`.
    fn function(&mut self, op: &str, arg: Box<Node>) -> (r: Result<Box<Node>, ParseError>)
        ensures
            *final(self) == *old(self),
            match function_spec(lower_of(op@), arg) {
                Some(n) => r matches Ok(b) && *b == n,
                None => r matches Err(ParseError::UnsupportedFunction(name)) && name@ == op@,
            },
    {
        let lower = lowercase(op);
        let l = lower.as_str();
        proof {
            reveal_strlit("sin");
            reveal_strlit("sine");
            reveal_strlit("cos");
            reveal_strlit("cosine");
            reveal_strlit("sqrt");
        }
        if str_eq(l, "sin") || str_eq(l, "sine") {
            Ok(Node::Sin(arg).boxed())
        } else if str_eq(l, "cos") || str_eq(l, "cosine") {
            Ok(Node::Cos(arg).boxed())
        } else if str_eq(l, "sqrt") {
            Ok(Node::Sqrt(arg).boxed())
        } else {
            Err(ParseError::UnsupportedFunction(op.to_owned()))
        }
    }

    /// Takes the next token and checks that it is the bracket or sign `expect_token`.
    fn expect(&mut self, expect_token: char) -> (r: Result<(), ParseError>)
        requires
            old(self).wf(),
        ensures
            final(self).wf(),
            final(self).lexer.src == old(self).lexer.src,
            final(self).measure() <= old(self).measure(),
            old(self).peeked matches Some(t) && !(t is Eof) ==> final(self).measure() < old(
                self,
            ).measure(),
            extends(old(self).seen@, final(self).seen@),
            r is Ok ==> token_char(final(self).curr) == expect_token && final(self).cursor() == old(self).cursor() + 1
                && final(self).seen@[old(self).cursor()] == final(self).curr && final(self).peeked is None,
            r is Ok ==> final(self).lexer.error == old(self).lexer.error,
            r is Err ==> final(self).lexer.error || (final(self).cursor() == old(self).cursor() + 1 && token_char(
                final(self).seen@[old(self).cursor()],
            ) != expect_token),
            old(self).peeked is Some ==> r is Err ==> token_char(old(self).peeked->0) != expect_token,
    {
        self.next_token()?;
        let curr = self.curr.to_char();
        if expect_token != curr {
            return Err(ParseError::Syntax(ParseErrorKind::Expected(expect_token, curr)));
        }
        Ok(())
    }

    /// The next token, read ahead without taking it.
    fn peek_token(&mut self) -> (r: Result<Token, ParseError>)
        requires
            old(self).wf(),
        ensures
            final(self).wf(),
            final(self).lexer.src == old(self).lexer.src,
            final(self).measure() <= old(self).measure(),
            r matches Ok(t) ==> final(self).peeked == Some(t) && final(self).seen@[old(self).cursor()] == t,
            old(self).peeked matches Some(t) ==> r == Ok::<Token, ParseError>(t) && *final(self) == *old(self),
            extends(old(self).seen@, final(self).seen@),
            final(self).cursor() == old(self).cursor() || r is Err,
            r is Ok ==> final(self).lexer.error == old(self).lexer.error,
            r is Err ==> final(self).lexer.error,
    {
        reveal(AddressParser::tokens_lexed);
        if self.peeked.is_none() {
            if self.lexer.error {
                return Err(ParseError::Syntax(ParseErrorKind::AfterLexError));
            }
            let ghost p = self.lexer.pos;
            let t = match self.lexer.next_token() {
                Ok(t) => t,
                Err(e) => {
                    proof {
                        assert(lexes(self.lexer.src@, p as int, Err::<Token, ParseError>(e), self.lexer.pos as int));
                    }
                    return Err(e);
                },
            };
            proof {
                let old_ends = self.ends@;
                self.seen@ = self.seen@.push(t);
                self.ends@ = old_ends.push(self.lexer.pos as int);
                if !self.lexer.error {
                    assert(chain_end(old_ends) == p);
                }
            }
            self.peeked = Some(t);
        }
        match &self.peeked {
            Some(t) => Ok(t.duplicate()),
            None => Err(ParseError::Syntax(ParseErrorKind::UnrecognizedAtom('E'))),
        }
    }

    /// Takes the next token into `curr`.
    fn next_token(&mut self) -> (r: Result<(), ParseError>)
        requires
            old(self).wf(),
        ensures
            final(self).wf(),
            final(self).lexer.src == old(self).lexer.src,
            final(self).peeked is None,
            final(self).measure() <= old(self).measure(),
            old(self).peeked matches Some(t) ==> r is Ok && final(self).curr == t,
            old(self).peeked matches Some(t) && !(t is Eof) ==> final(self).measure() < old(self).measure(),
            extends(old(self).seen@, final(self).seen@),
            r is Ok ==> final(self).cursor() == old(self).cursor() + 1 && final(self).seen@[old(self).cursor()]
                == final(self).curr,
            r is Ok ==> final(self).lexer.error == old(self).lexer.error,
            r is Err ==> final(self).lexer.error,
    {
        reveal(AddressParser::tokens_lexed);
        match self.peeked.take() {
            Some(token) => {
                self.curr = token;
            },
            None => {
                if self.lexer.error {
                    return Err(ParseError::Syntax(ParseErrorKind::AfterLexError));
                }
                let ghost p = self.lexer.pos;
                let t = match self.lexer.next_token() {
                    Ok(t) => t,
                    Err(e) => {
                        proof {
                            assert(lexes(self.lexer.src@, p as int, Err::<Token, ParseError>(e), self.lexer.pos as int));
                        }
                        return Err(e);
                    },
                };
                proof {
                    let old_ends = self.ends@;
                    self.seen@ = self.seen@.push(t);
                    self.ends@ = old_ends.push(self.lexer.pos as int);
                    if !self.lexer.error {
                        assert(chain_end(old_ends) == p);
                    }
                }
                self.curr = t;
            },
        }
        Ok(())
    }
}

} // verus!
