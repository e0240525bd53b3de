//! The tokenizer: one token at a time from a byte position of the input.
use vstd::prelude::*;
use vstd::string::StringSliceAdditionalSpecFns;
use crate::expr::{ExprType, Op, Variable};
use crate::resolve::{
    binding_token, builtin, builtin_token, find_builtin, find_lookup, first_binding,
    first_builtin, resolve, builtin_entry, BUILTIN_COUNT,
};

verus! {

/// A token of the input.
#[derive(Clone, Copy, Debug)]
pub enum Token {
    /// No token read yet.
    Null,
    /// A byte that starts no token, or an identifier that resolves to nothing.
    Error,
    /// The end of the input.
    End,
    /// `,`
    Sep,
    /// `(`
    Open,
    /// `)`
    Close,
    /// A numeric literal, the bytes `start..end` of the input.
    Number { start: usize, end: usize },
    /// A variable with its bound value.
    Var(i8),
    /// A function or closure, with its kind, purity and operation.
    Call { e_type: ExprType, pure: bool, function: Option<Op> },
    /// A binary operator.
    Infix(Op),
}

pub open spec fn is_space(b: u8) -> bool {
    b == 32 || b == 9 || b == 13 || b == 10
}

pub open spec fn is_digit(b: u8) -> bool {
    48 <= b <= 57
}

pub open spec fn is_lower(b: u8) -> bool {
    97 <= b <= 122
}

/// A byte that may stand in a numeric literal: a digit or `.`.
pub open spec fn is_number_byte(b: u8) -> bool {
    is_digit(b) || b == 46
}

/// A byte that may stand in an identifier after its first letter.
pub open spec fn is_ident_byte(b: u8) -> bool {
    is_lower(b) || is_digit(b)
}

/// End of the maximal run of number bytes (or identifier bytes) from `pos`.
pub open spec fn run_end(src: Seq<u8>, pos: int, ident: bool) -> int
    decreases src.len() - pos,
{
    if 0 <= pos < src.len() && (if ident { is_ident_byte(src[pos]) } else { is_number_byte(src[pos]) }) {
        run_end(src, pos + 1, ident)
    } else {
        pos
    }
}

/// Number of `.` bytes in `s`.
pub open spec fn count_dots(s: Seq<u8>) -> nat
    decreases s.len(),
{
    if s.len() == 0 {
        0
    } else {
        count_dots(s.drop_last()) + if s.last() == 46 { 1nat } else { 0nat }
    }
}

/// A run of digits and dots is a decimal literal when it has at most one dot
/// and at least one digit (`1`, `1.`, `.5`, `1.5`; not `.` nor `1.2.3`).
pub open spec fn valid_literal(lit: Seq<u8>) -> bool {
    count_dots(lit) <= 1 && lit.len() > count_dots(lit)
}

/// The token of an operator or punctuation byte.
pub open spec fn punct_token(c: u8) -> Token {
    if c == 43 { Token::Infix(Op::Add) }
    else if c == 45 { Token::Infix(Op::Sub) }
    else if c == 42 { Token::Infix(Op::Mul) }
    else if c == 47 { Token::Infix(Op::Div) }
    else if c == 94 { Token::Infix(Op::Pow) }
    else if c == 37 { Token::Infix(Op::Fmod) }
    else if c == 40 { Token::Open }
    else if c == 41 { Token::Close }
    else if c == 44 { Token::Sep }
    else { Token::Error }
}

/// The token that starts at or after `pos` and the position after it, or the
/// span of a malformed numeric literal. Whitespace is skipped, and so is an
/// identifier bound to a constant-tagged binding.
pub open spec fn scan(src: Seq<u8>, vars: Seq<Variable>, pos: int) -> Result<(Token, int), (usize, usize)>
    decreases src.len() - pos,
{
    if pos < 0 || pos >= src.len() {
        Ok((Token::End, pos))
    } else {
        let c = src[pos];
        if is_space(c) {
            scan(src, vars, pos + 1)
        } else if is_number_byte(c) {
            let e = run_end(src, pos, false);
            if valid_literal(src.subrange(pos, e)) {
                Ok((Token::Number { start: pos as usize, end: e as usize }, e))
            } else {
                Err((pos as usize, e as usize))
            }
        } else if is_lower(c) {
            let e = run_end(src, pos, true);
            match resolve(vars, src.subrange(pos, e)) {
                None => Ok((Token::Error, e)),
                Some(Some(t)) => Ok((t, e)),
                Some(None) => if pos < e <= src.len() { scan(src, vars, e) } else { Ok((Token::Error, e)) },
            }
        } else {
            Ok((punct_token(c), pos + 1))
        }
    }
}

/// `run_end` stays inside the input, covers only bytes of the run, and
/// stops at the first byte outside it.
pub proof fn lemma_run_end(src: Seq<u8>, pos: int, ident: bool)
    requires
        0 <= pos <= src.len(),
    ensures
        pos <= run_end(src, pos, ident) <= src.len(),
        forall|k: int| pos <= k < run_end(src, pos, ident) ==>
            (if ident { is_ident_byte(#[trigger] src[k]) } else { is_number_byte(src[k]) }),
        run_end(src, pos, ident) < src.len() ==>
            !(if ident { is_ident_byte(src[run_end(src, pos, ident)]) } else { is_number_byte(src[run_end(src, pos, ident)]) }),
    decreases src.len() - pos,
{
    if pos < src.len() && (if ident { is_ident_byte(src[pos]) } else { is_number_byte(src[pos]) }) {
        lemma_run_end(src, pos + 1, ident);
    }
}

/// Where `scan` leaves off: never before `pos`, past `pos` unless at the end
/// of the input, and a literal's span inside the input.
pub proof fn lemma_scan_advances(src: Seq<u8>, vars: Seq<Variable>, pos: int)
    requires
        0 <= pos <= src.len() <= usize::MAX,
    ensures
        match scan(src, vars, pos) {
            Ok((t, q)) => {
                &&& pos <= q <= src.len()
                &&& (t is End ==> q == src.len())
                &&& (!(t is End) ==> pos < q)
                &&& (t matches Token::Number { start, end } ==> start <= end == q
                    && valid_literal(src.subrange(start as int, end as int)))
                &&& (t matches Token::Call { e_type, .. } ==> e_type is Function || e_type is Closure)
                &&& (vars.len() == 0 ==> !(t is Var) && (t matches Token::Call { pure, .. } ==> pure))
            },
            Err((a, b)) => pos <= a <= b <= src.len(),
        },
    decreases src.len() - pos,
{
    if pos < src.len() {
        let c = src[pos];
        if is_space(c) {
            lemma_scan_advances(src, vars, pos + 1);
        } else if is_number_byte(c) {
            lemma_run_end(src, pos, false);
        } else if is_lower(c) {
            lemma_run_end(src, pos, true);
            let e = run_end(src, pos, true);
            if pos < e <= src.len() {
                lemma_scan_advances(src, vars, e);
            }
        }
    }
}

/// Scan state: the input, the position after the current token, the current
/// token, and the caller's bindings.
pub struct State {
    pub next: Vec<u8>,
    pub s_type: Token,
    pub n_idx: usize,
    pub lookup: Vec<Variable>,
}

impl State {
    /// A state at the start of `expression`, with no token read yet.
    pub fn new(expression: &str, lookup: Vec<Variable>) -> (r: State)
        ensures
            r.next@ == expression.spec_bytes(),
            r.next@.len() <= usize::MAX,
            r.s_type is Null,
            r.n_idx == 0,
            r.lookup@ == lookup@,
    {
        let bytes = expression.as_bytes();
        let mut next: Vec<u8> = Vec::new();
        let mut i: usize = 0;
        while i < bytes.len()
            invariant
                i <= bytes@.len(),
                next@ == bytes@.subrange(0, i as int),
            decreases bytes@.len() - i,
        {
            next.push(bytes[i]);
            i = i + 1;
            assert(next@ =~= bytes@.subrange(0, i as int));
        }
        assert(next@ =~= bytes@);
        State { next, s_type: Token::Null, n_idx: 0, lookup }
    }
}

/// Whether `b` is whitespace: space, tab, carriage return or line feed.
fn is_space_byte(b: u8) -> (r: bool)
    ensures
        r == is_space(b),
{
    b == 32 || b == 9 || b == 13 || b == 10
}

/// The token of an operator or punctuation byte.
fn punct(c: u8) -> (r: Token)
    ensures
        r == punct_token(c),
{
    if c == 43 { Token::Infix(Op::Add) }
    else if c == 45 { Token::Infix(Op::Sub) }
    else if c == 42 { Token::Infix(Op::Mul) }
    else if c == 47 { Token::Infix(Op::Div) }
    else if c == 94 { Token::Infix(Op::Pow) }
    else if c == 37 { Token::Infix(Op::Fmod) }
    else if c == 40 { Token::Open }
    else if c == 41 { Token::Close }
    else if c == 44 { Token::Sep }
    else { Token::Error }
}

/// Whether `b` continues a run of identifier (or number) bytes.
fn run_byte(b: u8, ident: bool) -> (r: bool)
    ensures
        r == (if ident { is_ident_byte(b) } else { is_number_byte(b) }),
{
    if ident {
        (97 <= b && b <= 122) || (48 <= b && b <= 57)
    } else {
        (48 <= b && b <= 57) || b == 46
    }
}

/// End of the run of number (or identifier) bytes from `pos`.
fn scan_run(src: &Vec<u8>, pos: usize, ident: bool) -> (r: usize)
    requires
        pos <= src.len(),
    ensures
        r as int == run_end(src@, pos as int, ident),
    decreases src.len() - pos,
{
    let mut e = pos;
    while e < src.len() && run_byte(src[e], ident)
        invariant
            pos <= e <= src.len(),
            run_end(src@, pos as int, ident) == run_end(src@, e as int, ident),
        decreases src.len() - e,
    {
        e = e + 1;
    }
    e
}

/// Whether `src[start..end]`, a run of digits and dots, is a decimal literal.
fn check_literal(src: &Vec<u8>, start: usize, end: usize) -> (r: bool)
    requires
        start <= end <= src.len(),
    ensures
        r == valid_literal(src@.subrange(start as int, end as int)),
{
    let mut dots: usize = 0;
    let mut k = start;
    while k < end
        invariant
            start <= k <= end <= src.len(),
            dots as nat == count_dots(src@.subrange(start as int, k as int)),
            dots <= k - start,
        decreases end - k,
    {
        assert(src@.subrange(start as int, k + 1).drop_last() =~= src@.subrange(start as int, k as int));
        if src[k] == 46 {
            dots = dots + 1;
        }
        k = k + 1;
    }
    dots <= 1 && end - start > dots
}

/// Reads the next token: sets `s_type` to it and `n_idx` past it, or returns
/// the span of a malformed numeric literal.
pub fn next_token(s: &mut State) -> (r: Result<(), (usize, usize)>)
    requires
        old(s).n_idx <= old(s).next.len(),
    ensures
        final(s).next == old(s).next,
        final(s).lookup == old(s).lookup,
        final(s).n_idx <= final(s).next.len(),
        match scan(old(s).next@, old(s).lookup@, old(s).n_idx as int) {
            Ok((t, p)) => r is Ok && final(s).s_type == t && final(s).n_idx as int == p,
            Err(span) => r == Err::<(), (usize, usize)>(span),
        },
{
    let ghost src = s.next@;
    let ghost vars = s.lookup@;
    let ghost start = s.n_idx as int;
    loop
        invariant
            src == old(s).next@,
            vars == old(s).lookup@,
            start == old(s).n_idx,
            s.next == old(s).next,
            s.lookup == old(s).lookup,
            start <= s.n_idx <= s.next.len(),
            scan(src, vars, start) == scan(src, vars, s.n_idx as int),
        decreases s.next.len() - s.n_idx,
    {
        let pos = s.n_idx;
        if pos == s.next.len() {
            s.s_type = Token::End;
            return Ok(());
        }
        let c = s.next[pos];
        if is_space_byte(c) {
            s.n_idx = pos + 1;
        } else if (48 <= c && c <= 57) || c == 46 {
            let e = scan_run(&s.next, pos, false);
            proof { lemma_run_end(src, pos as int, false); }
            if check_literal(&s.next, pos, e) {
                s.s_type = Token::Number { start: pos, end: e };
                s.n_idx = e;
                return Ok(());
            } else {
                return Err((pos, e));
            }
        } else if 97 <= c && c <= 122 {
            let e = scan_run(&s.next, pos, true);
            proof { lemma_run_end(src, pos as int, true); }
            let ghost ident = src.subrange(pos as int, e as int);
            match find_lookup(&s.lookup, &s.next, pos, e) {
                Some(i) => {
                    proof {
                        assert(exists|j: int| first_binding(vars, ident, j));
                        let j = choose|j: int| first_binding(vars, ident, j);
                        assert(j == i as int);
                    }
                    let v = &s.lookup[i];
                    match v.v_type {
                        ExprType::Variable => {
                            s.s_type = Token::Var(v.address);
                            s.n_idx = e;
                            return Ok(());
                        },
                        ExprType::Constant => {
                            s.n_idx = e;
                        },
                        _ => {
                            s.s_type = Token::Call { e_type: v.v_type, pure: v.pure, function: v.function };
                            s.n_idx = e;
                            return Ok(());
                        },
                    }
                },
                None => {
                    assert(!exists|j: int| first_binding(vars, ident, j));
                    match find_builtin(&s.next, pos, e) {
                        Some(i) => {
                            proof {
                                assert(exists|j: int| first_builtin(ident, j));
                                let j = choose|j: int| first_builtin(ident, j);
                                assert(j == i as int);
                            }
                            let (_, arity, op) = builtin_entry(i);
                            s.s_type = Token::Call { e_type: ExprType::Function(arity), pure: true, function: Some(op) };
                            s.n_idx = e;
                            return Ok(());
                        },
                        None => {
                            assert(!exists|j: int| first_builtin(ident, j));
                            s.s_type = Token::Error;
                            s.n_idx = e;
                            return Ok(());
                        },
                    }
                },
            }
        } else {
            s.s_type = punct(c);
            s.n_idx = pos + 1;
            return Ok(());
        }
    }
}

} // verus!
