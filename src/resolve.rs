//! Resolution of an identifier: the caller's bindings first, then the
//! built-in functions and constants.
use vstd::prelude::*;
use crate::expr::{ExprType, Op, Variable};
use crate::lexer::Token;

verus! {

/// Number of built-in functions and constants.
pub const BUILTIN_COUNT: usize = 21;

/// Built-in entry `i`, in the order of their names: name, arity, operation.
pub open spec fn builtin(i: int) -> (Seq<char>, u8, Op) {
    if i == 0 { ("abs"@, 1, Op::Abs) }
    else if i == 1 { ("acos"@, 1, Op::Acos) }
    else if i == 2 { ("asin"@, 1, Op::Asin) }
    else if i == 3 { ("atan"@, 1, Op::Atan) }
    else if i == 4 { ("atan2"@, 2, Op::Atan2) }
    else if i == 5 { ("ceil"@, 1, Op::Ceil) }
    else if i == 6 { ("cos"@, 1, Op::Cos) }
    else if i == 7 { ("cosh"@, 1, Op::Cosh) }
    else if i == 8 { ("e"@, 0, Op::E) }
    else if i == 9 { ("exp"@, 1, Op::Exp) }
    else if i == 10 { ("floor"@, 1, Op::Floor) }
    else if i == 11 { ("ln"@, 1, Op::Ln) }
    else if i == 12 { ("log"@, 1, Op::Log) }
    else if i == 13 { ("log10"@, 1, Op::Log10) }
    else if i == 14 { ("pi"@, 0, Op::Pi) }
    else if i == 15 { ("pow"@, 2, Op::Pow) }
    else if i == 16 { ("sin"@, 1, Op::Sin) }
    else if i == 17 { ("sinh"@, 1, Op::Sinh) }
    else if i == 18 { ("sqrt"@, 1, Op::Sqrt) }
    else if i == 19 { ("tan"@, 1, Op::Tan) }
    else { ("tanh"@, 1, Op::Tanh) }
}

/// The bytes of built-in name `i`.
pub open spec fn builtin_bytes(i: int) -> Seq<u8> {
    vstd::utf8::encode_utf8(builtin(i).0)
}

/// Byte-wise lexicographic order: `a` sorts strictly before `b`.
pub open spec fn lex_lt(a: Seq<u8>, b: Seq<u8>) -> bool
    decreases a.len(),
{
    if b.len() == 0 {
        false
    } else if a.len() == 0 {
        true
    } else if a[0] != b[0] {
        a[0] < b[0]
    } else {
        lex_lt(a.drop_first(), b.drop_first())
    }
}

/// Strict order: what sorts before `b` is not `b`.
proof fn lemma_lex_lt_ne(a: Seq<u8>, b: Seq<u8>)
    requires
        lex_lt(a, b),
    ensures
        a != b,
    decreases a.len(),
{
    if a.len() > 0 && b.len() > 0 && a[0] == b[0] {
        lemma_lex_lt_ne(a.drop_first(), b.drop_first());
        if a == b {
            assert(a.drop_first() == b.drop_first());
        }
    }
}

/// The order is transitive.
proof fn lemma_lex_lt_trans(a: Seq<u8>, b: Seq<u8>, c: Seq<u8>)
    requires
        lex_lt(a, b),
        lex_lt(b, c),
    ensures
        lex_lt(a, c),
    decreases a.len(),
{
    if a.len() > 0 && a[0] == b[0] && b[0] == c[0] {
        lemma_lex_lt_trans(a.drop_first(), b.drop_first(), c.drop_first());
    }
}

/// The bytes of an ASCII name.
pub open spec fn ascii(s: Seq<char>) -> Seq<u8> {
    s.map_values(|c: char| c as u8)
}

/// A name of lowercase letters and digits is encoded one byte per character.
proof fn lemma_ascii_bytes(s: Seq<char>)
    requires
        forall|i: int| 0 <= i < s.len() ==> 'a' <= #[trigger] s[i] <= 'z' || '0' <= s[i] <= '9',
    ensures
        vstd::utf8::encode_utf8(s) == ascii(s),
{
    vstd::utf8::is_ascii_chars_encode_utf8(s);
    assert(vstd::utf8::encode_utf8(s) =~= ascii(s));
}

/// The built-in names, in the order of the table, sort strictly ascending.
proof fn lemma_builtins_sorted()
    ensures
        forall|i: int, j: int| 0 <= i < j < BUILTIN_COUNT ==> lex_lt(#[trigger] builtin_bytes(i), #[trigger] builtin_bytes(j)),
{
    reveal_strlit("abs");
    reveal_strlit("acos");
    reveal_strlit("asin");
    reveal_strlit("atan");
    reveal_strlit("atan2");
    reveal_strlit("ceil");
    reveal_strlit("cos");
    reveal_strlit("cosh");
    reveal_strlit("e");
    reveal_strlit("exp");
    reveal_strlit("floor");
    reveal_strlit("ln");
    reveal_strlit("log");
    reveal_strlit("log10");
    reveal_strlit("pi");
    reveal_strlit("pow");
    reveal_strlit("sin");
    reveal_strlit("sinh");
    reveal_strlit("sqrt");
    reveal_strlit("tan");
    reveal_strlit("tanh");
    reveal_with_fuel(lex_lt, 6);
    assert forall|i: int| 0 <= i < BUILTIN_COUNT implies #[trigger] builtin_bytes(i) == ascii(builtin(i).0) by {
        lemma_ascii_bytes(builtin(i).0);
    }
    assert forall|i: int| 0 <= i < BUILTIN_COUNT - 1 implies lex_lt(#[trigger] builtin_bytes(i), builtin_bytes(i + 1)) by {
        assert(ascii(builtin(i).0) =~= builtin(i).0.map_values(|c: char| c as u8));
    }
    assert forall|i: int, j: int| 0 <= i < j < BUILTIN_COUNT implies lex_lt(#[trigger] builtin_bytes(i), #[trigger] builtin_bytes(j)) by {
        lemma_sorted_from_adjacent(i, j);
    }
}

/// Order between neighbours extends to any two entries of the table.
proof fn lemma_sorted_from_adjacent(i: int, j: int)
    requires
        0 <= i < j < BUILTIN_COUNT,
        forall|k: int| 0 <= k < BUILTIN_COUNT - 1 ==> lex_lt(#[trigger] builtin_bytes(k), builtin_bytes(k + 1)),
    ensures
        lex_lt(builtin_bytes(i), builtin_bytes(j)),
    decreases j - i,
{
    if j > i + 1 {
        lemma_sorted_from_adjacent(i, j - 1);
        lemma_lex_lt_trans(builtin_bytes(i), builtin_bytes(j - 1), builtin_bytes(j));
    }
}

/// The bytes of a binding's name.
pub open spec fn name_bytes(v: Variable) -> Seq<u8> {
    vstd::utf8::encode_utf8(v.name@)
}

/// Binding `i` is the first whose name is `ident`.
pub open spec fn first_binding(vars: Seq<Variable>, ident: Seq<u8>, i: int) -> bool {
    &&& 0 <= i < vars.len()
    &&& name_bytes(vars[i]) == ident
    &&& forall|j: int| 0 <= j < i ==> name_bytes(#[trigger] vars[j]) != ident
}

/// Built-in `i` is the first whose name is `ident`.
pub open spec fn first_builtin(ident: Seq<u8>, i: int) -> bool {
    &&& 0 <= i < BUILTIN_COUNT
    &&& builtin_bytes(i) == ident
    &&& forall|j: int| 0 <= j < i ==> #[trigger] builtin_bytes(j) != ident
}

/// The token a binding stands for; a binding tagged as a constant stands for
/// none and is passed over.
pub open spec fn binding_token(v: Variable) -> Option<Token> {
    match v.v_type {
        ExprType::Variable => Some(Token::Var(v.address)),
        ExprType::Constant => None,
        _ => Some(Token::Call { e_type: v.v_type, pure: v.pure, function: v.function }),
    }
}

/// The token of built-in `i`: a pure function of its arity.
pub open spec fn builtin_token(i: int) -> Token {
    Token::Call { e_type: ExprType::Function(builtin(i).1), pure: true, function: Some(builtin(i).2) }
}

/// What `ident` resolves to: `None` when neither a binding nor a built-in has
/// that name, else the token it stands for, if any. Bindings take precedence.
pub open spec fn resolve(vars: Seq<Variable>, ident: Seq<u8>) -> Option<Option<Token>> {
    if exists|i: int| first_binding(vars, ident, i) {
        Some(binding_token(vars[choose|i: int| first_binding(vars, ident, i)]))
    } else if exists|i: int| first_builtin(ident, i) {
        Some(Some(builtin_token(choose|i: int| first_builtin(ident, i))))
    } else {
        None
    }
}

/// Built-in entry `i`: name, arity, operation.
pub fn builtin_entry(i: usize) -> (r: (&'static str, u8, Op))
    requires
        i < BUILTIN_COUNT,
    ensures
        (r.0@, r.1, r.2) == builtin(i as int),
{
    match i {
        0 => ("abs", 1, Op::Abs),
        1 => ("acos", 1, Op::Acos),
        2 => ("asin", 1, Op::Asin),
        3 => ("atan", 1, Op::Atan),
        4 => ("atan2", 2, Op::Atan2),
        5 => ("ceil", 1, Op::Ceil),
        6 => ("cos", 1, Op::Cos),
        7 => ("cosh", 1, Op::Cosh),
        8 => ("e", 0, Op::E),
        9 => ("exp", 1, Op::Exp),
        10 => ("floor", 1, Op::Floor),
        11 => ("ln", 1, Op::Ln),
        12 => ("log", 1, Op::Log),
        13 => ("log10", 1, Op::Log10),
        14 => ("pi", 0, Op::Pi),
        15 => ("pow", 2, Op::Pow),
        16 => ("sin", 1, Op::Sin),
        17 => ("sinh", 1, Op::Sinh),
        18 => ("sqrt", 1, Op::Sqrt),
        19 => ("tan", 1, Op::Tan),
        _ => ("tanh", 1, Op::Tanh),
    }
}

/// Whether `src[start..end]` equals `name`.
fn bytes_eq(src: &Vec<u8>, start: usize, end: usize, name: &[u8]) -> (r: bool)
    requires
        start <= end <= src.len(),
    ensures
        r == (src@.subrange(start as int, end as int) == name@),
{
    if end - start != name.len() {
        return false;
    }
    let mut k: usize = 0;
    while k < name.len()
        invariant
            start <= end <= src.len(),
            end - start == name.len(),
            k <= name.len(),
            forall|j: int| 0 <= j < k ==> src@[start + j] == name@[j],
        decreases name.len() - k,
    {
        if src[start + k] != name[k] {
            assert(src@.subrange(start as int, end as int)[k as int] != name@[k as int]);
            return false;
        }
        k = k + 1;
    }
    assert(src@.subrange(start as int, end as int) =~= name@);
    true
}

/// Index of the first binding named `src[start..end]`.
pub fn find_lookup(lookup: &Vec<Variable>, src: &Vec<u8>, start: usize, end: usize) -> (r: Option<usize>)
    requires
        start <= end <= src.len(),
    ensures
        match r {
            Some(i) => first_binding(lookup@, src@.subrange(start as int, end as int), i as int),
            None => forall|i: int| 0 <= i < lookup.len() ==>
                name_bytes(#[trigger] lookup@[i]) != src@.subrange(start as int, end as int),
        },
{
    let ghost ident = src@.subrange(start as int, end as int);
    let mut i: usize = 0;
    while i < lookup.len()
        invariant
            start <= end <= src.len(),
            ident == src@.subrange(start as int, end as int),
            i <= lookup.len(),
            forall|j: int| 0 <= j < i ==> name_bytes(#[trigger] lookup@[j]) != ident,
        decreases lookup.len() - i,
    {
        let name = lookup[i].name.as_str().as_bytes();
        if bytes_eq(src, start, end, name) {
            return Some(i);
        }
        i = i + 1;
    }
    None
}

/// How `src[start..end]` compares with `name` in byte-wise lexicographic
/// order: negative before, zero equal, positive after.
fn compare_bytes(src: &Vec<u8>, start: usize, end: usize, name: &[u8]) -> (r: i8)
    requires
        start <= end <= src.len(),
    ensures
        (r == 0) == (src@.subrange(start as int, end as int) == name@),
        (r < 0) == lex_lt(src@.subrange(start as int, end as int), name@),
        (r > 0) == lex_lt(name@, src@.subrange(start as int, end as int)),
{
    let ghost a = src@.subrange(start as int, end as int);
    let ghost b = name@;
    let n = end - start;
    let mut k: usize = 0;
    assert(a.subrange(0, n as int) =~= a);
    assert(b.subrange(0, b.len() as int) =~= b);
    assert(a.subrange(0, 0) =~= b.subrange(0, 0));
    while k < n && k < name.len()
        invariant
            start <= end <= src.len(),
            n == end - start,
            a == src@.subrange(start as int, end as int),
            b == name@,
            k <= n,
            k <= b.len(),
            a.subrange(0, k as int) == b.subrange(0, k as int),
            lex_lt(a, b) == lex_lt(a.subrange(k as int, n as int), b.subrange(k as int, b.len() as int)),
            lex_lt(b, a) == lex_lt(b.subrange(k as int, b.len() as int), a.subrange(k as int, n as int)),
        decreases n - k,
    {
        let x = src[start + k];
        let y = name[k];
        let ghost ra = a.subrange(k as int, n as int);
        let ghost rb = b.subrange(k as int, b.len() as int);
        assert(ra[0] == x && rb[0] == y);
        if x != y {
            assert(a[k as int] != b[k as int]);
            return if x < y { -1 } else { 1 };
        }
        assert(ra.drop_first() =~= a.subrange(k + 1, n as int));
        assert(rb.drop_first() =~= b.subrange(k + 1, b.len() as int));
        assert(a.subrange(0, k + 1) =~= a.subrange(0, k as int).push(x));
        assert(b.subrange(0, k + 1) =~= b.subrange(0, k as int).push(y));
        k = k + 1;
    }
    if k == n && k == name.len() {
        assert(a =~= a.subrange(0, k as int));
        assert(b =~= b.subrange(0, k as int));
        0
    } else if k == n {
        assert(a.len() != b.len());
        -1
    } else {
        assert(a.len() != b.len());
        1
    }
}

/// Index of the built-in named `src[start..end]`, by binary search over the
/// table, whose names are sorted.
pub fn find_builtin(src: &Vec<u8>, start: usize, end: usize) -> (r: Option<usize>)
    requires
        start <= end <= src.len(),
    ensures
        match r {
            Some(i) => first_builtin(src@.subrange(start as int, end as int), i as int),
            None => forall|i: int| 0 <= i < BUILTIN_COUNT ==>
                #[trigger] builtin_bytes(i) != src@.subrange(start as int, end as int),
        },
{
    let ghost ident = src@.subrange(start as int, end as int);
    proof {
        lemma_builtins_sorted();
    }
    let mut lo: usize = 0;
    let mut hi: usize = BUILTIN_COUNT;
    while lo < hi
        invariant
            start <= end <= src.len(),
            ident == src@.subrange(start as int, end as int),
            lo <= hi <= BUILTIN_COUNT,
            forall|i: int, j: int| 0 <= i < j < BUILTIN_COUNT ==> lex_lt(#[trigger] builtin_bytes(i), #[trigger] builtin_bytes(j)),
            forall|i: int| 0 <= i < lo ==> lex_lt(#[trigger] builtin_bytes(i), ident),
            forall|i: int| hi <= i < BUILTIN_COUNT ==> lex_lt(ident, #[trigger] builtin_bytes(i)),
        decreases hi - lo,
    {
        let mid = lo + (hi - lo) / 2;
        let (name, _, _) = builtin_entry(mid);
        let c = compare_bytes(src, start, end, name.as_bytes());
        if c == 0 {
            proof {
                assert forall|j: int| 0 <= j < mid implies #[trigger] builtin_bytes(j) != ident by {
                    assert(lex_lt(builtin_bytes(j), builtin_bytes(mid as int)));
                    lemma_lex_lt_ne(builtin_bytes(j), builtin_bytes(mid as int));
                }
            }
            return Some(mid);
        } else if c < 0 {
            proof {
                assert forall|i: int| mid <= i < BUILTIN_COUNT implies lex_lt(ident, #[trigger] builtin_bytes(i)) by {
                    if i > mid {
                        assert(lex_lt(builtin_bytes(mid as int), builtin_bytes(i)));
                        lemma_lex_lt_trans(ident, builtin_bytes(mid as int), builtin_bytes(i));
                    }
                }
            }
            hi = mid;
        } else {
            proof {
                assert forall|i: int| 0 <= i <= mid implies lex_lt(#[trigger] builtin_bytes(i), ident) by {
                    if i < mid {
                        assert(lex_lt(builtin_bytes(i), builtin_bytes(mid as int)));
                        lemma_lex_lt_trans(builtin_bytes(i), builtin_bytes(mid as int), ident);
                    }
                }
            }
            lo = mid + 1;
        }
    }
    proof {
        assert forall|i: int| 0 <= i < BUILTIN_COUNT implies #[trigger] builtin_bytes(i) != ident by {
            if i < lo {
                lemma_lex_lt_ne(builtin_bytes(i), ident);
            } else {
                lemma_lex_lt_ne(ident, builtin_bytes(i));
            }
        }
    }
    None
}

} // verus!
