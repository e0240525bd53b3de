//! The grammar compiler: operator-precedence recursive descent from tokens
//! to an expression tree.
//!
//! ```text
//! list   := expr (',' expr)*
//! expr   := term (('+' | '-') term)*
//! term   := factor (('*' | '/' | '%') factor)*
//! factor := power ('^' power)*
//! power  := ('+' | '-')* base
//! base   := NUMBER | VARIABLE | FUNCTION0 | FUNCTION1 power
//!         | FUNCTIONn '(' expr (',' expr)* ')' | '(' list ')'
//! ```
use vstd::prelude::*;
use vstd::string::StringSliceAdditionalSpecFns;
use crate::error::TinyExprError;
use crate::expr::{
    binary, constant, negate, new_binary, new_constant, new_expr, new_negate, new_variable, node,
    variable, views, well_formed, Expr, ExprType, Op, Tree, Variable,
};
use crate::fold::folds;
use crate::lexer::{lemma_scan_advances, next_token, scan, valid_literal, State, Token};

verus! {

/// Why a parse stopped: a token the grammar does not allow there, or a
/// malformed numeric literal (its span in the input).
#[derive(Clone, Copy, Debug)]
pub enum Fail {
    Syntax,
    Malformed(usize, usize),
}

/// The current token and the position after it.
pub struct Cursor {
    pub tok: Token,
    pub pos: int,
}

/// The cursor of a scan state.
pub open spec fn cursor(s: State) -> Cursor {
    Cursor { tok: s.s_type, pos: s.n_idx as int }
}

/// What is left of the input: it shrinks with every token consumed.
pub open spec fn measure(len: int, c: Cursor) -> int {
    len - c.pos + if c.tok is End { 0int } else { 1int }
}

/// The cursor after consuming the current token.
pub open spec fn advance(src: Seq<u8>, vars: Seq<Variable>, c: Cursor) -> Result<Cursor, Fail> {
    match scan(src, vars, c.pos) {
        Ok((t, p)) => Ok(Cursor { tok: t, pos: p }),
        Err((a, b)) => Err(Fail::Malformed(a, b)),
    }
}

/// The operation that the token `tok` continues a chain with at level `lvl`
/// (0: list, 1: expr, 2: term, 3: factor), if any.
pub open spec fn level_op(lvl: nat, tok: Token) -> Option<Op> {
    match tok {
        Token::Sep => if lvl == 0 { Some(Op::Comma) } else { None },
        Token::Infix(op) => {
            if lvl == 1 && (op == Op::Add || op == Op::Sub) {
                Some(op)
            } else if lvl == 2 && (op == Op::Mul || op == Op::Div || op == Op::Fmod) {
                Some(op)
            } else if lvl >= 3 && op == Op::Pow {
                Some(op)
            } else {
                None
            }
        },
        _ => None,
    }
}

/// Orders the grammar rules for termination: a chain outranks the chain of
/// the next level, which outranks `power`.
pub open spec fn rank(lvl: nat) -> int {
    if lvl >= 3 { 5 } else { 2 * (4 - lvl) + 5 }
}

/// A chain of operands at level `lvl` joined left to right.
pub open spec fn p_chain(src: Seq<u8>, vars: Seq<Variable>, lvl: nat, c: Cursor) -> Result<(Tree, Cursor), Fail>
    decreases measure(src.len() as int, c), rank(lvl),
{
    let first = if lvl >= 3 { p_power(src, vars, false, c) } else { p_chain(src, vars, lvl + 1, c) };
    match first {
        Err(f) => Err(f),
        Ok((t, c1)) => {
            if 0 <= measure(src.len() as int, c1) <= measure(src.len() as int, c) {
                p_rest(src, vars, lvl, t, c1)
            } else {
                Err(Fail::Syntax)
            }
        },
    }
}

/// The rest of a chain at level `lvl` after the operands folded into `acc`.
pub open spec fn p_rest(src: Seq<u8>, vars: Seq<Variable>, lvl: nat, acc: Tree, c: Cursor) -> Result<(Tree, Cursor), Fail>
    decreases measure(src.len() as int, c), rank(lvl) - 1,
{
    match level_op(lvl, c.tok) {
        None => Ok((acc, c)),
        Some(op) => match advance(src, vars, c) {
            Err(f) => Err(f),
            Ok(c1) => {
                if 0 <= measure(src.len() as int, c1) < measure(src.len() as int, c) {
                    let operand = if lvl >= 3 {
                        p_power(src, vars, false, c1)
                    } else {
                        p_chain(src, vars, lvl + 1, c1)
                    };
                    match operand {
                        Err(f) => Err(f),
                        Ok((t, c2)) => {
                            if 0 <= measure(src.len() as int, c2) <= measure(src.len() as int, c1) {
                                p_rest(src, vars, lvl, binary(op, acc, t), c2)
                            } else {
                                Err(Fail::Syntax)
                            }
                        },
                    }
                } else {
                    Err(Fail::Syntax)
                }
            },
        },
    }
}

/// Whether `tok` is a sign: `+` or `-`.
pub open spec fn is_sign(tok: Token) -> bool {
    match tok {
        Token::Infix(op) => op == Op::Add || op == Op::Sub,
        _ => false,
    }
}

/// A run of signs then a base; an odd number of `-` negates the base.
pub open spec fn p_power(src: Seq<u8>, vars: Seq<Variable>, neg: bool, c: Cursor) -> Result<(Tree, Cursor), Fail>
    decreases measure(src.len() as int, c), 4int,
{
    if is_sign(c.tok) {
        match advance(src, vars, c) {
            Err(f) => Err(f),
            Ok(c1) => {
                if 0 <= measure(src.len() as int, c1) < measure(src.len() as int, c) {
                    p_power(src, vars, if c.tok == Token::Infix(Op::Sub) { !neg } else { neg }, c1)
                } else {
                    Err(Fail::Syntax)
                }
            },
        }
    } else {
        match p_base(src, vars, c) {
            Err(f) => Err(f),
            Ok((b, c1)) => Ok((if neg { negate(b) } else { b }, c1)),
        }
    }
}

/// A number, a variable, a function call, or a parenthesised list.
pub open spec fn p_base(src: Seq<u8>, vars: Seq<Variable>, c: Cursor) -> Result<(Tree, Cursor), Fail>
    decreases measure(src.len() as int, c), 2int,
{
    let len = src.len() as int;
    match advance(src, vars, c) {
        Err(f) => match c.tok {
            Token::Number { .. } | Token::Var(_) | Token::Call { .. } | Token::Open => Err(f),
            _ => Err(Fail::Syntax),
        },
        Ok(c1) => {
            if !(0 <= measure(len, c1) < measure(len, c)) {
                Err(Fail::Syntax)
            } else {
                match c.tok {
                    Token::Number { start, end } => Ok((constant(src.subrange(start as int, end as int)), c1)),
                    Token::Var(b) => Ok((variable(b), c1)),
                    Token::Call { e_type, pure, function } => {
                        let k = e_type.spec_arity();
                        if k == 0 {
                            Ok((node(e_type, pure, function, Seq::empty()), c1))
                        } else if k == 1 {
                            match p_power(src, vars, false, c1) {
                                Err(f) => Err(f),
                                Ok((a, c2)) => Ok((node(e_type, pure, function, seq![a]), c2)),
                            }
                        } else if c1.tok is Open {
                            match p_args(src, vars, k, Seq::empty(), c1) {
                                Err(f) => Err(f),
                                Ok((args, c2)) => match advance(src, vars, c2) {
                                    Err(f) => Err(f),
                                    Ok(c3) => Ok((node(e_type, pure, function, args), c3)),
                                },
                            }
                        } else {
                            Err(Fail::Syntax)
                        }
                    },
                    Token::Open => match p_chain(src, vars, 0, c1) {
                        Err(f) => Err(f),
                        Ok((t, c2)) => {
                            if c2.tok is Close {
                                match advance(src, vars, c2) {
                                    Err(f) => Err(f),
                                    Ok(c3) => Ok((t, c3)),
                                }
                            } else {
                                Err(Fail::Syntax)
                            }
                        },
                    },
                    _ => Err(Fail::Syntax),
                }
            }
        },
    }
}

/// The arguments of a call of arity `k` after the `acc` already read; `c`
/// is at the `(` or `,` before the next one. Ends at the `)`.
pub open spec fn p_args(src: Seq<u8>, vars: Seq<Variable>, k: nat, acc: Seq<Tree>, c: Cursor) -> Result<(Seq<Tree>, Cursor), Fail>
    decreases measure(src.len() as int, c), 1int,
{
    let len = src.len() as int;
    match advance(src, vars, c) {
        Err(f) => Err(f),
        Ok(c1) => {
            if !(0 <= measure(len, c1) < measure(len, c)) {
                Err(Fail::Syntax)
            } else {
                match p_chain(src, vars, 1, c1) {
                    Err(f) => Err(f),
                    Ok((t, c2)) => {
                        let acc2 = acc.push(t);
                        if acc2.len() < k && c2.tok is Sep && 0 <= measure(len, c2) <= measure(len, c1) {
                            p_args(src, vars, k, acc2, c2)
                        } else if acc2.len() == k && c2.tok is Close {
                            Ok((acc2, c2))
                        } else {
                            Err(Fail::Syntax)
                        }
                    },
                }
            }
        },
    }
}

/// A state the grammar can work on: the position lies inside the input, the
/// end token sits at its end, a current literal is a valid span of it, a call
/// is of a function or closure kind, and with no bindings no token is a
/// variable and every call is pure.
pub open spec fn wf(s: State) -> bool {
    &&& s.n_idx <= s.next@.len() <= usize::MAX
    &&& (s.s_type is End ==> s.n_idx == s.next@.len())
    &&& (s.s_type matches Token::Number { start, end } ==> start <= end <= s.next@.len()
        && valid_literal(s.next@.subrange(start as int, end as int)))
    &&& (s.s_type matches Token::Call { e_type, .. } ==> e_type is Function || e_type is Closure)
    &&& (s.lookup@.len() == 0 ==> !(s.s_type is Var) && (s.s_type matches Token::Call { pure, .. } ==> pure))
}

/// Every constant of `t` holds a valid decimal literal.
pub open spec fn literals_valid(t: Tree) -> bool
    decreases t,
{
    &&& (t.e_type is Constant ==> valid_literal(t.value))
    &&& forall|i: int| 0 <= i < t.parameters.len() ==> literals_valid(#[trigger] t.parameters[i])
}

/// Consumes the current token.
fn advance_state(s: &mut State) -> (r: Result<(), Fail>)
    requires
        wf(*old(s)),
    ensures
        final(s).next == old(s).next,
        final(s).lookup == old(s).lookup,
        r matches Err(Fail::Malformed(a, b)) ==> a <= b <= old(s).next@.len(),
        r is Ok ==> wf(*final(s)),
        match advance(old(s).next@, old(s).lookup@, cursor(*old(s))) {
            Ok(c) => r is Ok && cursor(*final(s)) == c,
            Err(f) => r == Err::<(), Fail>(f),
        },
        r is Ok && !(old(s).s_type is End) ==> 0 <= measure(final(s).next@.len() as int, cursor(*final(s)))
            < measure(old(s).next@.len() as int, cursor(*old(s))),
{
    proof {
        lemma_scan_advances(s.next@, s.lookup@, s.n_idx as int);
    }
    match next_token(s) {
        Ok(()) => Ok(()),
        Err((a, b)) => Err(Fail::Malformed(a, b)),
    }
}

/// The operation that `tok` continues a chain with at level `lvl`.
fn level_op_exec(lvl: u8, tok: Token) -> (r: Option<Op>)
    ensures
        r == level_op(lvl as nat, tok),
{
    match tok {
        Token::Sep => if lvl == 0 { Some(Op::Comma) } else { None },
        Token::Infix(op) => {
            if lvl == 1 && (op == Op::Add || op == Op::Sub) {
                Some(op)
            } else if lvl == 2 && (op == Op::Mul || op == Op::Div || op == Op::Fmod) {
                Some(op)
            } else if lvl >= 3 && op == Op::Pow {
                Some(op)
            } else {
                None
            }
        },
        _ => None,
    }
}

/// Copies the bytes `start..end` of `src`.
fn copy_range(src: &Vec<u8>, start: usize, end: usize) -> (r: Vec<u8>)
    requires
        start <= end <= src.len(),
    ensures
        r@ == src@.subrange(start as int, end as int),
{
    let mut r: Vec<u8> = Vec::new();
    let mut k = start;
    while k < end
        invariant
            start <= k <= end <= src.len(),
            r@ == src@.subrange(start as int, k as int),
        decreases end - k,
    {
        r.push(src[k]);
        k = k + 1;
        assert(r@ =~= src@.subrange(start as int, k as int));
    }
    r
}

/// Parses a chain of operands at level `lvl` (0: list, 1: expr, 2: term,
/// 3: factor) joined left to right by the operators of that level.
fn chain(s: &mut State, lvl: u8) -> (r: Result<Expr, Fail>)
    requires
        wf(*old(s)),
        lvl <= 3,
    ensures
        final(s).next == old(s).next,
        final(s).lookup == old(s).lookup,
        r matches Err(Fail::Malformed(a, b)) ==> a <= b <= old(s).next@.len(),
        r is Ok ==> wf(*final(s)),
        match p_chain(old(s).next@, old(s).lookup@, lvl as nat, cursor(*old(s))) {
            Ok((t, c)) => r is Ok && r->Ok_0@ == t && cursor(*final(s)) == c,
            Err(f) => r == Err::<Expr, Fail>(f),
        },
        r is Ok ==> measure(final(s).next@.len() as int, cursor(*final(s)))
            <= measure(old(s).next@.len() as int, cursor(*old(s))),
        r is Ok ==> literals_valid(r->Ok_0@) && well_formed(r->Ok_0@),
        r is Ok && old(s).lookup@.len() == 0 ==> folds(r->Ok_0@),
    decreases measure(old(s).next@.len() as int, cursor(*old(s))), rank(lvl as nat),
{
    let ghost src = s.next@;
    let ghost vars = s.lookup@;
    let ghost c0 = cursor(*s);
    let ghost len = src.len() as int;
    let first = if lvl >= 3 { power(s) } else { chain(s, lvl + 1) };
    let mut ret = match first {
        Ok(t) => t,
        Err(f) => return Err(f),
    };
    loop
        invariant
            s.next@ == src,
            s.lookup@ == vars,
            s.next == old(s).next,
            s.lookup == old(s).lookup,
            src == old(s).next@,
            vars == old(s).lookup@,
            c0 == cursor(*old(s)),
            len == src.len(),
            lvl <= 3,
            wf(*s),
            0 <= measure(len, cursor(*s)) <= measure(len, c0),
            p_chain(src, vars, lvl as nat, c0) == p_rest(src, vars, lvl as nat, ret@, cursor(*s)),
            literals_valid(ret@),
            well_formed(ret@),
            vars.len() == 0 ==> folds(ret@),
        decreases measure(len, cursor(*s)),
    {
        let ghost c = cursor(*s);
        let op = match level_op_exec(lvl, s.s_type) {
            None => return Ok(ret),
            Some(op) => op,
        };
        if let Err(f) = advance_state(s) {
            return Err(f);
        }
        let operand = if lvl >= 3 { power(s) } else { chain(s, lvl + 1) };
        let t = match operand {
            Ok(t) => t,
            Err(f) => return Err(f),
        };
        proof {
            lemma_node_valid(ExprType::Function(2), true, Some(op), seq![ret@, t@]);
        }
        ret = new_binary(op, ret, t);
    }
}

/// `list := expr (',' expr)*`
pub fn list(s: &mut State) -> (r: Result<Expr, Fail>)
    requires
        wf(*old(s)),
    ensures
        final(s).next == old(s).next,
        final(s).lookup == old(s).lookup,
        r matches Err(Fail::Malformed(a, b)) ==> a <= b <= old(s).next@.len(),
        r is Ok ==> wf(*final(s)),
        match p_chain(old(s).next@, old(s).lookup@, 0, cursor(*old(s))) {
            Ok((t, c)) => r is Ok && r->Ok_0@ == t && cursor(*final(s)) == c,
            Err(f) => r == Err::<Expr, Fail>(f),
        },
        r is Ok ==> literals_valid(r->Ok_0@) && well_formed(r->Ok_0@),
        r is Ok && old(s).lookup@.len() == 0 ==> folds(r->Ok_0@),
{
    chain(s, 0)
}

/// `power := ('+' | '-')* base`
fn power(s: &mut State) -> (r: Result<Expr, Fail>)
    requires
        wf(*old(s)),
    ensures
        final(s).next == old(s).next,
        final(s).lookup == old(s).lookup,
        r matches Err(Fail::Malformed(a, b)) ==> a <= b <= old(s).next@.len(),
        r is Ok ==> wf(*final(s)),
        match p_power(old(s).next@, old(s).lookup@, false, cursor(*old(s))) {
            Ok((t, c)) => r is Ok && r->Ok_0@ == t && cursor(*final(s)) == c,
            Err(f) => r == Err::<Expr, Fail>(f),
        },
        r is Ok ==> measure(final(s).next@.len() as int, cursor(*final(s)))
            <= measure(old(s).next@.len() as int, cursor(*old(s))),
        r is Ok ==> literals_valid(r->Ok_0@) && well_formed(r->Ok_0@),
        r is Ok && old(s).lookup@.len() == 0 ==> folds(r->Ok_0@),
    decreases measure(old(s).next@.len() as int, cursor(*old(s))), 4int,
{
    let ghost src = s.next@;
    let ghost vars = s.lookup@;
    let ghost c0 = cursor(*s);
    let ghost len = src.len() as int;
    let mut neg = false;
    loop
        invariant
            s.next@ == src,
            s.lookup@ == vars,
            s.next == old(s).next,
            s.lookup == old(s).lookup,
            src == old(s).next@,
            vars == old(s).lookup@,
            c0 == cursor(*old(s)),
            len == src.len(),
            wf(*s),
            0 <= measure(len, cursor(*s)) <= measure(len, c0),
            p_power(src, vars, false, c0) == p_power(src, vars, neg, cursor(*s)),
        ensures
            !is_sign(s.s_type),
        decreases measure(len, cursor(*s)),
    {
        let sign = match s.s_type {
            Token::Infix(op) => op == Op::Add || op == Op::Sub,
            _ => false,
        };
        if !sign {
            break;
        }
        if let Token::Infix(Op::Sub) = s.s_type {
            neg = !neg;
        }
        if let Err(f) = advance_state(s) {
            return Err(f);
        }
    }
    let b = match base(s) {
        Ok(b) => b,
        Err(f) => return Err(f),
    };
    if neg {
        proof {
            lemma_node_valid(ExprType::Function(1), true, Some(Op::Neg), seq![b@]);
        }
        Ok(new_negate(b))
    } else {
        Ok(b)
    }
}

/// `base := NUMBER | VARIABLE | call | '(' list ')'`
fn base(s: &mut State) -> (r: Result<Expr, Fail>)
    requires
        wf(*old(s)),
    ensures
        final(s).next == old(s).next,
        final(s).lookup == old(s).lookup,
        r matches Err(Fail::Malformed(a, b)) ==> a <= b <= old(s).next@.len(),
        r is Ok ==> wf(*final(s)),
        match p_base(old(s).next@, old(s).lookup@, cursor(*old(s))) {
            Ok((t, c)) => r is Ok && r->Ok_0@ == t && cursor(*final(s)) == c,
            Err(f) => r == Err::<Expr, Fail>(f),
        },
        r is Ok ==> measure(final(s).next@.len() as int, cursor(*final(s)))
            <= measure(old(s).next@.len() as int, cursor(*old(s))),
        r is Ok ==> literals_valid(r->Ok_0@) && well_formed(r->Ok_0@),
        r is Ok && old(s).lookup@.len() == 0 ==> folds(r->Ok_0@),
    decreases measure(old(s).next@.len() as int, cursor(*old(s))), 2int,
{
    match s.s_type {
        Token::Number { start, end } => {
            let lit = copy_range(&s.next, start, end);
            if let Err(f) = advance_state(s) {
                return Err(f);
            }
            proof {
                lemma_leaf_valid(constant(lit@));
            }
            Ok(new_constant(lit))
        },
        Token::Var(b) => {
            if let Err(f) = advance_state(s) {
                return Err(f);
            }
            proof {
                lemma_leaf_valid(variable(b));
            }
            Ok(new_variable(b))
        },
        Token::Call { e_type, pure, function } => {
            let k = e_type.arity();
            if let Err(f) = advance_state(s) {
                return Err(f);
            }
            if k == 0 {
                let params: Vec<Expr> = Vec::new();
                assert(views(params@) =~= Seq::<Tree>::empty());
                proof {
                    lemma_node_valid(e_type, pure, function, views(params@));
                }
                Ok(new_expr(e_type, pure, function, params))
            } else if k == 1 {
                let a = match power(s) {
                    Ok(a) => a,
                    Err(f) => return Err(f),
                };
                let ghost av = a@;
                let params = vec![a];
                assert(views(params@) =~= seq![av]);
                proof {
                    lemma_node_valid(e_type, pure, function, views(params@));
                }
                Ok(new_expr(e_type, pure, function, params))
            } else if matches!(s.s_type, Token::Open) {
                let params = match args(s, k) {
                    Ok(p) => p,
                    Err(f) => return Err(f),
                };
                if let Err(f) = advance_state(s) {
                    return Err(f);
                }
                proof {
                    lemma_node_valid(e_type, pure, function, views(params@));
                }
                Ok(new_expr(e_type, pure, function, params))
            } else {
                Err(Fail::Syntax)
            }
        },
        Token::Open => {
            if let Err(f) = advance_state(s) {
                return Err(f);
            }
            let t = match chain(s, 0) {
                Ok(t) => t,
                Err(f) => return Err(f),
            };
            if matches!(s.s_type, Token::Close) {
                if let Err(f) = advance_state(s) {
                    return Err(f);
                }
                Ok(t)
            } else {
                Err(Fail::Syntax)
            }
        },
        _ => Err(Fail::Syntax),
    }
}

/// The `k` arguments of a call, from its `(` to its `)`.
fn args(s: &mut State, k: u8) -> (r: Result<Vec<Expr>, Fail>)
    requires
        wf(*old(s)),
        old(s).s_type is Open,
        k >= 1,
    ensures
        final(s).next == old(s).next,
        final(s).lookup == old(s).lookup,
        r matches Err(Fail::Malformed(a, b)) ==> a <= b <= old(s).next@.len(),
        r is Ok ==> wf(*final(s)),
        match p_args(old(s).next@, old(s).lookup@, k as nat, Seq::empty(), cursor(*old(s))) {
            Ok((a, c)) => r is Ok && views(r->Ok_0@) == a && cursor(*final(s)) == c,
            Err(f) => r == Err::<Vec<Expr>, Fail>(f),
        },
        r is Ok ==> final(s).s_type is Close && measure(final(s).next@.len() as int, cursor(*final(s)))
            <= measure(old(s).next@.len() as int, cursor(*old(s))),
        r is Ok ==> r->Ok_0@.len() == k,
        r is Ok ==> forall|i: int| 0 <= i < r->Ok_0@.len() ==> literals_valid(#[trigger] r->Ok_0@[i]@)
            && well_formed(r->Ok_0@[i]@),
        r is Ok && old(s).lookup@.len() == 0 ==> forall|i: int| 0 <= i < r->Ok_0@.len() ==> folds(#[trigger] r->Ok_0@[i]@),
    decreases measure(old(s).next@.len() as int, cursor(*old(s))), 1int,
{
    let ghost src = s.next@;
    let ghost vars = s.lookup@;
    let ghost c0 = cursor(*s);
    let ghost len = src.len() as int;
    let mut acc: Vec<Expr> = Vec::new();
    assert(views(acc@) =~= Seq::<Tree>::empty());
    loop
        invariant
            s.next@ == src,
            s.lookup@ == vars,
            s.next == old(s).next,
            s.lookup == old(s).lookup,
            src == old(s).next@,
            vars == old(s).lookup@,
            c0 == cursor(*old(s)),
            len == src.len(),
            wf(*s),
            s.s_type is Open || s.s_type is Sep,
            acc@.len() < k,
            0 <= measure(len, cursor(*s)) <= measure(len, c0),
            p_args(src, vars, k as nat, Seq::empty(), c0) == p_args(src, vars, k as nat, views(acc@), cursor(*s)),
            forall|i: int| 0 <= i < acc@.len() ==> literals_valid(#[trigger] acc@[i]@) && well_formed(acc@[i]@),
            vars.len() == 0 ==> forall|i: int| 0 <= i < acc@.len() ==> folds(#[trigger] acc@[i]@),
        decreases measure(len, cursor(*s)),
    {
        let ghost acc0 = views(acc@);
        if let Err(f) = advance_state(s) {
            return Err(f);
        }
        let t = match chain(s, 1) {
            Ok(t) => t,
            Err(f) => return Err(f),
        };
        acc.push(t);
        assert(views(acc@) =~= acc0.push(t@));
        if acc.len() < k as usize && matches!(s.s_type, Token::Sep) {
        } else if acc.len() == k as usize && matches!(s.s_type, Token::Close) {
            return Ok(acc);
        } else {
            return Err(Fail::Syntax);
        }
    }
}

/// A node built from valid, well-formed arguments is valid and well-formed,
/// and folds when it is pure and they fold.
proof fn lemma_node_valid(e_type: ExprType, pure: bool, function: Option<Op>, params: Seq<Tree>)
    requires
        !(e_type is Constant),
        forall|i: int| 0 <= i < params.len() ==> literals_valid(#[trigger] params[i]),
    ensures
        literals_valid(node(e_type, pure, function, params)),
        params.len() == e_type.spec_arity() && (forall|i: int| 0 <= i < params.len() ==> well_formed(#[trigger] params[i]))
            ==> well_formed(node(e_type, pure, function, params)),
        !(e_type is Variable) && pure && (forall|i: int| 0 <= i < params.len() ==> folds(#[trigger] params[i]))
            ==> folds(node(e_type, pure, function, params)),
{
}

/// A node without arguments is valid when its literal is.
proof fn lemma_leaf_valid(t: Tree)
    requires
        t.parameters.len() == 0,
        t.e_type is Constant ==> valid_literal(t.value),
    ensures
        literals_valid(t),
        t.e_type.spec_arity() == 0 ==> well_formed(t),
{
}

/// The bindings a compile call sees.
pub open spec fn bindings(variables: Option<Vec<Variable>>) -> Seq<Variable> {
    match variables {
        Some(v) => v@,
        None => Seq::empty(),
    }
}

/// What compiling `src` with the bindings `vars` yields: the tree of the
/// whole input; `None` when the grammar fails or stops before the end of the
/// input; or the span of the first malformed numeric literal read.
pub open spec fn compile_spec(src: Seq<u8>, vars: Seq<Variable>) -> Result<Option<Tree>, (usize, usize)> {
    match scan(src, vars, 0) {
        Err(span) => Err(span),
        Ok((t, p)) => match p_chain(src, vars, 0, Cursor { tok: t, pos: p }) {
            Err(Fail::Malformed(a, b)) => Err((a, b)),
            Err(Fail::Syntax) => Ok(None),
            Ok((tree, c)) => if c.tok is End { Ok(Some(tree)) } else { Ok(None) },
        },
    }
}

/// Compiles `expression` with the caller's bindings into a tree. Returns
/// `Ok(None)` when the input is not one whole expression, and
/// `Err(TinyExprError::Parse(..))` with the literal's bytes when a numeric
/// literal is malformed.
pub fn compile(expression: &str, variables: Option<Vec<Variable>>) -> (r: Result<Option<Expr>, TinyExprError>)
    ensures
        match compile_spec(expression.spec_bytes(), bindings(variables)) {
            Ok(Some(t)) => r matches Ok(Some(e)) && e@ == t,
            Ok(None) => r matches Ok(None),
            Err((a, b)) => r matches Err(TinyExprError::Parse(lit))
                && lit@ == expression.spec_bytes().subrange(a as int, b as int),
        },
        r matches Ok(Some(e)) ==> literals_valid(e@) && well_formed(e@),
        bindings(variables).len() == 0 ==> (r matches Ok(Some(e)) ==> folds(e@)),
{
    let lookup = match variables {
        Some(v) => v,
        None => Vec::new(),
    };
    let mut s = State::new(expression, lookup);
    proof {
        lemma_scan_advances(s.next@, s.lookup@, 0);
    }
    if let Err((a, b)) = next_token(&mut s) {
        return Err(TinyExprError::Parse(copy_range(&s.next, a, b)));
    }
    match list(&mut s) {
        Ok(root) => {
            if matches!(s.s_type, Token::End) {
                Ok(Some(root))
            } else {
                Ok(None)
            }
        },
        Err(Fail::Syntax) => Ok(None),
        Err(Fail::Malformed(a, b)) => {
            Err(TinyExprError::Parse(copy_range(&s.next, a, b)))
        },
    }
}

/// Compiles `expression` with no bindings, as one whole expression: an input
/// that does not parse to its end is an error with the message `NaN`.
pub fn parse(expression: &str) -> (r: Result<Expr, TinyExprError>)
    ensures
        match compile_spec(expression.spec_bytes(), Seq::empty()) {
            Ok(Some(t)) => r matches Ok(e) && e@ == t,
            Ok(None) => r matches Err(TinyExprError::Other(m)) && m@ == "NaN"@,
            Err((a, b)) => r matches Err(TinyExprError::Parse(lit))
                && lit@ == expression.spec_bytes().subrange(a as int, b as int),
        },
        r matches Ok(e) ==> literals_valid(e@) && well_formed(e@),
        r matches Ok(e) ==> folds(e@),
{
    match compile(expression, None) {
        Ok(Some(e)) => Ok(e),
        Ok(None) => Err(TinyExprError::Other("NaN".to_owned())),
        Err(err) => Err(err),
    }
}

/// Compiling is deterministic: the same input and bindings always give the
/// same outcome, so two compilations of one expression yield the same tree.
pub proof fn lemma_compile_idempotent(src: Seq<u8>, vars: Seq<Variable>, t1: Tree, t2: Tree)
    requires
        compile_spec(src, vars) == Ok::<Option<Tree>, (usize, usize)>(Some(t1)),
        compile_spec(src, vars) == Ok::<Option<Tree>, (usize, usize)>(Some(t2)),
    ensures
        t1 == t2,
{
}

/// An input whose first token is a malformed numeric literal never compiles:
/// the outcome is that literal's span, not a tree.
pub proof fn lemma_malformed_first_literal(src: Seq<u8>, vars: Seq<Variable>)
    requires
        scan(src, vars, 0) is Err,
    ensures
        compile_spec(src, vars) == Err::<Option<Tree>, (usize, usize)>(scan(src, vars, 0)->Err_0),
{
}

} // verus!
