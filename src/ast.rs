//! Expression trees of the address language and their evaluation.

use vstd::prelude::*;
use crate::arith::{
    clamp, pow_spec, sat_div_spec, saturating_add, saturating_div,
    saturating_mul, saturating_pow, saturating_sub,
};
use crate::error::EvalError;
use crate::lexer::str_eq;

verus! {

/// Supplies what an expression cannot know by itself: where a module symbol
/// lives, and what is stored at an address.
pub trait AddressResolver {
    fn module_symbol_to_address(&self, module_name: &str) -> Option<isize>;

    fn dereference(&self, address: usize) -> Option<isize>;
}

/// The functions of the language that work in floating point (sine,
/// cosine, square root), each rounded to an integer; they are computed
/// outside this crate.
pub trait FloatMath {
    fn sin_rounded(&self, x: isize) -> isize;

    fn cos_rounded(&self, x: isize) -> isize;

    fn sqrt_rounded(&self, x: isize) -> isize;
}

#[derive(Debug)]
pub enum Node {
    Number(isize),
    ModuleSymbol(String),
    Dereference(Box<Node>),
    Add(Box<Node>, Box<Node>),
    Sub(Box<Node>, Box<Node>),
    Mul(Box<Node>, Box<Node>),
    Div(Box<Node>, Box<Node>),
    Pow(Box<Node>, Box<Node>),
    Sin(Box<Node>),
    Cos(Box<Node>),
    Sqrt(Box<Node>),
    Var(String),
    Assignment(String, Box<Node>),
}

/// Variables assigned during one evaluation; a later assignment hides an
/// earlier one of the same name.
pub struct Env {
    vars: Vec<(String, isize)>,
}

/// The value last bound to `k` among `vars`.
pub open spec fn env_get(vars: Seq<(String, isize)>, k: Seq<char>) -> Option<isize>
    decreases vars.len(),
{
    if vars.len() == 0 {
        None
    } else if vars.last().0@ == k {
        Some(vars.last().1)
    } else {
        env_get(vars.drop_last(), k)
    }
}

impl View for Env {
    type V = Map<Seq<char>, isize>;

    closed spec fn view(&self) -> Map<Seq<char>, isize> {
        Map::new(|k: Seq<char>| env_get(self.vars@, k) is Some, |k: Seq<char>| env_get(self.vars@, k)->0)
    }
}

impl Env {
    pub fn new() -> (r: Env)
        ensures
            r@ == Map::<Seq<char>, isize>::empty(),
    {
        let r = Env { vars: Vec::new() };
        assert(r@ =~= Map::<Seq<char>, isize>::empty());
        r
    }

    pub fn get(&self, name: &str) -> (r: Option<isize>)
        ensures
            r == (if self@.contains_key(name@) { Some(self@[name@]) } else { None::<isize> }),
    {
        let mut i = self.vars.len();
        assert(self.vars@.subrange(0, i as int) =~= self.vars@);
        while i > 0
            invariant
                i <= self.vars@.len(),
                env_get(self.vars@, name@) == env_get(self.vars@.subrange(0, i as int), name@),
            decreases i,
        {
            let ghost pre = self.vars@.subrange(0, i as int);
            assert(pre.drop_last() =~= self.vars@.subrange(0, i - 1));
            if str_eq(self.vars[i - 1].0.as_str(), name) {
                return Some(self.vars[i - 1].1);
            }
            i = i - 1;
        }
        None
    }

    /// A copy of the environment.
    pub fn duplicate(&self) -> (r: Env)
        ensures
            r@ == self@,
    {
        let mut vars: Vec<(String, isize)> = Vec::new();
        let mut i: usize = 0;
        while i < self.vars.len()
            invariant
                i <= self.vars@.len(),
                vars@ == self.vars@.subrange(0, i as int),
            decreases self.vars@.len() - i,
        {
            let name = self.vars[i].0.clone();
            vars.push((name, self.vars[i].1));
            proof {
                assert(vars@ =~= self.vars@.subrange(0, i + 1));
            }
            i = i + 1;
        }
        proof {
            assert(vars@ =~= self.vars@);
        }
        let r = Env { vars };
        proof {
            assert(r@ =~= self@);
        }
        r
    }

    pub fn set(&mut self, name: String, value: isize)
        ensures
            final(self)@ == old(self)@.insert(name@, value),
    {
        self.vars.push((name, value));
        proof {
            assert(self.vars@.drop_last() =~= old(self).vars@);
            assert(self@ =~= old(self)@.insert(name@, value));
        }
    }
}

/// A tree whose value needs neither the resolver nor floating point.
pub open spec fn is_closed(n: Node) -> bool
    decreases n,
{
    match n {
        Node::Number(_) => true,
        Node::ModuleSymbol(_) => false,
        Node::Dereference(_) => false,
        Node::Add(a, b) => is_closed(*a) && is_closed(*b),
        Node::Sub(a, b) => is_closed(*a) && is_closed(*b),
        Node::Mul(a, b) => is_closed(*a) && is_closed(*b),
        Node::Div(a, b) => is_closed(*a) && is_closed(*b),
        Node::Pow(a, b) => is_closed(*a) && is_closed(*b),
        Node::Sin(_) => false,
        Node::Cos(_) => false,
        Node::Sqrt(_) => false,
        Node::Var(_) => true,
        Node::Assignment(_, a) => is_closed(*a),
    }
}

/// Combines two operand values by a binary operator; `None` for an exponent
/// that is negative or does not fit 32 bits.
pub open spec fn binary_spec(n: Node, x: isize, y: isize) -> Option<isize> {
    match n {
        Node::Add(_, _) => Some(clamp(x + y) as isize),
        Node::Sub(_, _) => Some(clamp(x - y) as isize),
        Node::Mul(_, _) => Some(clamp(x * y) as isize),
        Node::Div(_, _) => Some(sat_div_spec(x as int, y as int) as isize),
        _ => if 0 <= y <= u32::MAX {
            Some(clamp(pow_spec(x as int, y as nat)) as isize)
        } else {
            None
        },
    }
}

/// Value and variables after evaluating a closed tree, or `None` on error.
pub open spec fn eval_spec(n: Node, env: Map<Seq<char>, isize>) -> Option<(isize, Map<Seq<char>, isize>)>
    decreases n,
{
    match n {
        Node::Number(v) => Some((v, env)),
        Node::Add(a, b) => match eval_spec(*a, env) {
            Some((x, e1)) => apply_binary(n, x, eval_spec(*b, e1)),
            None => None,
        },
        Node::Sub(a, b) => match eval_spec(*a, env) {
            Some((x, e1)) => apply_binary(n, x, eval_spec(*b, e1)),
            None => None,
        },
        Node::Mul(a, b) => match eval_spec(*a, env) {
            Some((x, e1)) => apply_binary(n, x, eval_spec(*b, e1)),
            None => None,
        },
        Node::Div(a, b) => match eval_spec(*a, env) {
            Some((x, e1)) => apply_binary(n, x, eval_spec(*b, e1)),
            None => None,
        },
        Node::Pow(a, b) => match eval_spec(*a, env) {
            Some((x, e1)) => apply_binary(n, x, eval_spec(*b, e1)),
            None => None,
        },
        Node::Var(name) => if env.contains_key(name@) {
            Some((env[name@], env))
        } else {
            None
        },
        Node::Assignment(name, a) => match eval_spec(*a, env) {
            Some((x, e1)) => Some((x, e1.insert(name@, x))),
            None => None,
        },
        _ => None,
    }
}

/// The errors a tree's own node gives: a variable that is not set, a symbol
/// the resolver does not know, a dereference of a non-positive address.
pub open spec fn eval_errors(n: Node, env: Map<Seq<char>, isize>, r: Result<isize, EvalError>) -> bool {
    match n {
        Node::Var(name) => (r is Err <==> !env.contains_key(name@)) && (r is Err ==> (r matches Err(
            EvalError::UndefinedVariable(v),
        ) && v@ == name@)) && (r is Ok ==> r == Ok::<isize, EvalError>(env[name@])),
        Node::Dereference(inner) => is_closed(*inner) ==> match eval_spec(*inner, env) {
            Some((v, e)) => v <= 0 ==> (r matches Err(EvalError::NonPositiveAddress(w)) && w == v),
            None => r is Err,
        },
        Node::ModuleSymbol(name) => r is Err ==> (r matches Err(EvalError::UnresolvedSymbol(m)) && m@ == name@),
        _ => true,
    }
}

/// Applies the operator of `n` to `x` and the right operand's outcome.
pub open spec fn apply_binary(n: Node, x: isize, rhs: Option<(isize, Map<Seq<char>, isize>)>) -> Option<(isize, Map<Seq<char>, isize>)> {
    match rhs {
        Some((y, e2)) => match binary_spec(n, x, y) {
            Some(v) => Some((v, e2)),
            None => None,
        },
        None => None,
    }
}

/// The value of the module symbol `name`, given what the resolver found.
pub fn symbol_result(name: &String, found: Option<isize>) -> (r: Result<isize, EvalError>)
    ensures
        found matches Some(v) ==> r == Ok::<isize, EvalError>(v),
        found is None ==> (r matches Err(EvalError::UnresolvedSymbol(n)) && n@ == name@),
{
    match found {
        Some(v) => Ok(v),
        None => Err(EvalError::UnresolvedSymbol(name.clone())),
    }
}

/// The value read at the positive address `addr`, given what the resolver
/// read there.
pub fn dereference_result(addr: isize, read: Option<isize>) -> (r: Result<isize, EvalError>)
    ensures
        read matches Some(v) ==> r == Ok::<isize, EvalError>(v),
        read is None ==> (r matches Err(EvalError::UnreadableAddress(a)) && a == addr),
{
    match read {
        Some(v) => Ok(v),
        None => Err(EvalError::UnreadableAddress(addr)),
    }
}

impl Node {
    pub fn boxed(self) -> (r: Box<Node>)
        ensures
            *r == self,
    {
        Box::new(self)
    }

    /// Evaluates the tree. Integer operators saturate; a zero divisor gives
    /// zero; `[e]` reads through the resolver at the positive address `e`;
    /// an assignment binds its name once its value is known. On an error
    /// the environment is left as it was.
    pub fn eval<R: AddressResolver, T: FloatMath>(&self, env: &mut Env, resolver: &R, float: &T) -> (r: Result<isize, EvalError>)
        ensures
            is_closed(*self) ==> match eval_spec(*self, old(env)@) {
                Some((v, e)) => r == Ok::<isize, EvalError>(v) && final(env)@ == e,
                None => r is Err,
            },
            r is Err ==> final(env)@ == old(env)@,
            eval_errors(*self, old(env)@, r),
    {
        let saved = env.duplicate();
        let r = self.eval_in(env, resolver, float);
        if r.is_err() {
            *env = saved;
        }
        r
    }

    fn eval_in<R: AddressResolver, T: FloatMath>(&self, env: &mut Env, resolver: &R, float: &T) -> (r: Result<isize, EvalError>)
        ensures
            is_closed(*self) ==> match eval_spec(*self, old(env)@) {
                Some((v, e)) => r == Ok::<isize, EvalError>(v) && final(env)@ == e,
                None => r is Err,
            },
            eval_errors(*self, old(env)@, r),
        decreases self,
    {
        match self {
            Node::Number(a) => Ok(*a),
            Node::ModuleSymbol(a) => symbol_result(a, resolver.module_symbol_to_address(a.as_str())),
            Node::Dereference(node) => {
                let addr = node.eval_in(env, resolver, float)?;
                if addr <= 0 {
                    return Err(EvalError::NonPositiveAddress(addr));
                }
                dereference_result(addr, resolver.dereference(addr as usize))
            },
            Node::Add(a, b) => {
                let x = a.eval_in(env, resolver, float)?;
                let y = b.eval_in(env, resolver, float)?;
                Ok(saturating_add(x, y))
            },
            Node::Sub(a, b) => {
                let x = a.eval_in(env, resolver, float)?;
                let y = b.eval_in(env, resolver, float)?;
                Ok(saturating_sub(x, y))
            },
            Node::Mul(a, b) => {
                let x = a.eval_in(env, resolver, float)?;
                let y = b.eval_in(env, resolver, float)?;
                Ok(saturating_mul(x, y))
            },
            Node::Div(a, b) => {
                let x = a.eval_in(env, resolver, float)?;
                let y = b.eval_in(env, resolver, float)?;
                Ok(saturating_div(x, y))
            },
            Node::Pow(a, b) => {
                let x = a.eval_in(env, resolver, float)?;
                let y = b.eval_in(env, resolver, float)?;
                if y < 0 || y as i128 > u32::MAX as i128 {
                    return Err(EvalError::InvalidExponent(y));
                }
                Ok(saturating_pow(x, y as u32))
            },
            Node::Sin(a) => {
                let x = a.eval_in(env, resolver, float)?;
                Ok(float.sin_rounded(x))
            },
            Node::Cos(a) => {
                let x = a.eval_in(env, resolver, float)?;
                Ok(float.cos_rounded(x))
            },
            Node::Sqrt(a) => {
                let x = a.eval_in(env, resolver, float)?;
                Ok(float.sqrt_rounded(x))
            },
            Node::Var(a) => match env.get(a.as_str()) {
                Some(v) => Ok(v),
                None => Err(EvalError::UndefinedVariable(a.clone())),
            },
            Node::Assignment(a, node) => {
                let value = node.eval_in(env, resolver, float)?;
                env.set(a.clone(), value);
                Ok(value)
            },
        }
    }
}

} // verus!
