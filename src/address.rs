//! An address as the user wrote it, with its value.

use vstd::prelude::*;
use crate::ast::{AddressResolver, Env, FloatMath};
use crate::generator::hex_upper_prefixed;
use crate::error::{EvalError, ParseError};
use crate::ast::{eval_spec, is_closed, Node};
use crate::parser::{chain_end, lex_chain, lex_fails, p_expr, AddressParser};
use crate::token::Token;

verus! {

/// Why an address expression gave no address.
#[derive(Debug)]
pub enum AddressError {
    Parse(ParseError),
    Eval(EvalError),
}

pub struct AddressString {
    pub addr_str: String,
    pub value: Option<usize>,
}

impl AddressString {
    /// The address `value`, written in hex.
    pub fn from_value(value: usize) -> (r: AddressString)
        ensures
            r.value == Some(value),
            r.addr_str@ == "0x"@ + crate::generator::hex_digits(value as nat, true),
    {
        AddressString { addr_str: hex_upper_prefixed(value), value: Some(value) }
    }

    /// Parses and evaluates `addr`, in a fresh environment.
    pub fn load_str<R: AddressResolver, T: FloatMath>(addr: &str, resolver: &R, float: &T) -> (r: Result<AddressString, AddressError>)
        ensures
            r matches Ok(a) ==> a.addr_str@ == addr@ && a.value is Some,
            r matches Err(AddressError::Parse(_)) ==> parse_rejected(addr@),
            r matches Err(AddressError::Eval(_)) ==> exists|n: Node| #[trigger] parses_to(addr@, n) && (is_closed(n)
                ==> eval_spec(n, Map::empty()) is None),
            r matches Ok(a) ==> exists|n: Node| #[trigger] parses_to(addr@, n) && (is_closed(n) ==> (eval_spec(
                n,
                Map::empty(),
            ) matches Some((w, _)) && (w >= 0 ==> a.value == Some(w as usize)))),
    {
        let value = parse_address_str(addr, resolver, float)?;
        Ok(AddressString { addr_str: addr.to_owned(), value: Some(value) })
    }

    /// The value, zero when there is none.
    pub fn address_value(&self) -> (r: usize)
        ensures
            r == match self.value {
                Some(v) => v,
                None => 0,
            },
    {
        match self.value {
            Some(v) => v,
            None => 0,
        }
    }

    pub fn text(&self) -> (r: String)
        ensures
            r == self.addr_str,
    {
        self.addr_str.clone()
    }
}

/// `n` is the tree that the grammar gives for the tokens that the lexer
/// reads from the start of `src`.
pub open spec fn parses_to(src: Seq<char>, n: Node) -> bool {
    exists|toks: Seq<Token>, ends: Seq<int>, f: nat|
        #![trigger lex_chain(src, toks, ends), p_expr(toks, 0, 1, true, f)]
        lex_chain(src, toks, ends) && (p_expr(toks, 0, 1, true, f) matches Some((m, _)) && m == n)
}

/// The lexer fails on the source after some tokens, or the grammar rejects
/// the tokens it reads.
pub open spec fn parse_rejected(src: Seq<char>) -> bool {
    exists|toks: Seq<Token>, ends: Seq<int>|
        #[trigger] lex_chain(src, toks, ends) && (lex_fails(src, chain_end(ends)) || forall|f: nat|
            #[trigger] p_expr(toks, 0, 1, true, f) is None)
}

proof fn lemma_rejected(p: &AddressParser)
    requires
        p.wf(),
        p.lexer.error || forall|f: nat| #[trigger] p_expr(p.seen@, 0, 1, true, f) is None,
    ensures
        parse_rejected(p.lexer.src@),
{
    reveal(AddressParser::tokens_lexed);
    assert(lex_chain(p.lexer.src@, p.seen@, p.ends@));
}

proof fn lemma_parsed(p: &AddressParser, n: Node)
    requires
        p.wf(),
        !p.lexer.error,
        exists|f: nat| #[trigger] p_expr(p.seen@, 0, 1, true, f) == Some((n, p.cursor())),
    ensures
        parses_to(p.lexer.src@, n),
{
    reveal(AddressParser::tokens_lexed);
    let f = choose|f: nat| #[trigger] p_expr(p.seen@, 0, 1, true, f) == Some((n, p.cursor()));
    assert(lex_chain(p.lexer.src@, p.seen@, p.ends@));
    assert(p_expr(p.seen@, 0, 1, true, f) matches Some((m, _)) && m == n);
}

/// Parses `addr` and evaluates it in a fresh environment; the value is read
/// as an unsigned address, a negative one wrapping around.
pub fn parse_address_str<R: AddressResolver, T: FloatMath>(addr: &str, resolver: &R, float: &T) -> (r: Result<usize, AddressError>)
    ensures
        r matches Ok(v) ==> exists|n: Node| #[trigger] parses_to(addr@, n) && (is_closed(n) ==> (eval_spec(
            n,
            Map::empty(),
        ) matches Some((w, _)) && (w >= 0 ==> v == w))),
        r matches Err(AddressError::Parse(_)) ==> parse_rejected(addr@),
        r matches Err(AddressError::Eval(_)) ==> exists|n: Node| #[trigger] parses_to(addr@, n) && (is_closed(n)
            ==> eval_spec(n, Map::empty()) is None),
{
    let mut parser = AddressParser::new(addr);
    let tree = match parser.parse() {
        Ok(t) => t,
        Err(e) => {
            proof {
                lemma_rejected(&parser);
            }
            return Err(AddressError::Parse(e));
        },
    };
    proof {
        lemma_parsed(&parser, *tree);
    }
    let mut env = Env::new();
    match tree.eval(&mut env, resolver, float) {
        Ok(v) => {
            proof {
                assert(parses_to(addr@, *tree));
            }
            Ok(#[verifier::truncate] (v as usize))
        },
        Err(e) => {
            proof {
                assert(parses_to(addr@, *tree));
            }
            Err(AddressError::Eval(e))
        },
    }
}

} // verus!
