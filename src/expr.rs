//! The expression tree and the bindings a caller can supply.
use vstd::prelude::*;

verus! {

/// The operations a function node can apply.
#[derive(Clone, Copy, Debug, PartialEq, Eq, Structural)]
pub enum Op {
    Add,
    Sub,
    Mul,
    Div,
    Fmod,
    Neg,
    Comma,
    Abs,
    Acos,
    Asin,
    Atan,
    Atan2,
    Ceil,
    Cos,
    Cosh,
    E,
    Exp,
    Floor,
    Ln,
    Log,
    Log10,
    Pi,
    Pow,
    Sin,
    Sinh,
    Sqrt,
    Tan,
    Tanh,
}

/// The kind of a node or binding; functions and closures carry their arity.
#[derive(Clone, Copy, Debug, PartialEq, Eq, Structural)]
pub enum ExprType {
    Variable,
    Constant,
    Function(u8),
    Closure(u8),
}

impl ExprType {
    /// Number of arguments a node of this kind takes.
    pub open spec fn spec_arity(self) -> nat {
        match self {
            ExprType::Function(k) => k as nat,
            ExprType::Closure(k) => k as nat,
            _ => 0,
        }
    }

    /// Number of arguments a node of this kind takes.
    pub fn arity(&self) -> (r: u8)
        ensures
            r as nat == self.spec_arity(),
    {
        match self {
            ExprType::Function(k) => *k,
            ExprType::Closure(k) => *k,
            _ => 0,
        }
    }
}

/// A node of a compiled expression. `value` holds the literal text of a
/// constant, `bound` the value of a variable, `function` the operation of a
/// function node; `parameters` are its arguments.
#[derive(Debug)]
pub struct Expr {
    pub e_type: ExprType,
    pub pure: bool,
    pub value: Vec<u8>,
    pub bound: i8,
    pub function: Option<Op>,
    pub parameters: Vec<Expr>,
}

/// The mathematical value of an `Expr`.
pub struct Tree {
    pub e_type: ExprType,
    pub pure: bool,
    pub value: Seq<u8>,
    pub bound: i8,
    pub function: Option<Op>,
    pub parameters: Seq<Tree>,
}

/// Every node of `t` has as many arguments as its kind's arity; constants
/// and variables have none.
pub open spec fn well_formed(t: Tree) -> bool
    decreases t,
{
    &&& t.parameters.len() == t.e_type.spec_arity()
    &&& forall|i: int| 0 <= i < t.parameters.len() ==> well_formed(#[trigger] t.parameters[i])
}

/// The tree an `Expr` stands for.
pub open spec fn tree(e: Expr) -> Tree
    decreases e,
{
    Tree {
        e_type: e.e_type,
        pure: e.pure,
        value: e.value@,
        bound: e.bound,
        function: e.function,
        parameters: Seq::new(
            e.parameters@.len(),
            |i: int|
                if 0 <= i < e.parameters@.len() {
                    tree(e.parameters@[i])
                } else {
                    arbitrary()
                },
        ),
    }
}

impl View for Expr {
    type V = Tree;

    open spec fn view(&self) -> Tree {
        tree(*self)
    }
}

/// A node with no literal and no bound value.
pub open spec fn node(e_type: ExprType, pure: bool, function: Option<Op>, parameters: Seq<Tree>) -> Tree {
    Tree { e_type, pure, value: Seq::empty(), bound: 0, function, parameters }
}

/// A constant node holding the literal `lit`.
pub open spec fn constant(lit: Seq<u8>) -> Tree {
    Tree {
        e_type: ExprType::Constant,
        pure: false,
        value: lit,
        bound: 0,
        function: None,
        parameters: Seq::empty(),
    }
}

/// A variable node bound to `b`.
pub open spec fn variable(b: i8) -> Tree {
    Tree {
        e_type: ExprType::Variable,
        pure: false,
        value: Seq::empty(),
        bound: b,
        function: None,
        parameters: Seq::empty(),
    }
}

/// A pure binary node applying `op` to `l` and `r`.
pub open spec fn binary(op: Op, l: Tree, r: Tree) -> Tree {
    node(ExprType::Function(2), true, Some(op), seq![l, r])
}

/// A pure unary node negating `t`.
pub open spec fn negate(t: Tree) -> Tree {
    node(ExprType::Function(1), true, Some(Op::Neg), seq![t])
}

/// The views of a sequence of nodes.
pub open spec fn views(v: Seq<Expr>) -> Seq<Tree> {
    Seq::new(v.len(), |i: int| v[i]@)
}

/// A node of kind `e_type` applying `function` to `parameters`.
pub fn new_expr(e_type: ExprType, pure: bool, function: Option<Op>, parameters: Vec<Expr>) -> (r: Expr)
    ensures
        r@ == node(e_type, pure, function, views(parameters@)),
{
    let r = Expr { e_type, pure, value: Vec::new(), bound: 0, function, parameters };
    assert(r@.parameters =~= views(r.parameters@));
    assert(r@.value =~= Seq::<u8>::empty());
    r
}

/// A constant node holding the literal `lit`.
pub fn new_constant(lit: Vec<u8>) -> (r: Expr)
    ensures
        r@ == constant(lit@),
{
    let r = Expr {
        e_type: ExprType::Constant,
        pure: false,
        value: lit,
        bound: 0,
        function: None,
        parameters: Vec::new(),
    };
    assert(r@.parameters =~= Seq::<Tree>::empty());
    r
}

/// A variable node bound to `b`.
pub fn new_variable(b: i8) -> (r: Expr)
    ensures
        r@ == variable(b),
{
    let r = Expr {
        e_type: ExprType::Variable,
        pure: false,
        value: Vec::new(),
        bound: b,
        function: None,
        parameters: Vec::new(),
    };
    assert(r@.parameters =~= Seq::<Tree>::empty());
    assert(r@.value =~= Seq::<u8>::empty());
    r
}

/// A pure binary node applying `op` to `l` and `r`.
pub fn new_binary(op: Op, l: Expr, r: Expr) -> (e: Expr)
    ensures
        e@ == binary(op, l@, r@),
{
    let ghost (lv, rv) = (l@, r@);
    let params = vec![l, r];
    let e = new_expr(ExprType::Function(2), true, Some(op), params);
    assert(views(params@) =~= seq![lv, rv]);
    e
}

/// A pure unary node negating `t`.
pub fn new_negate(t: Expr) -> (e: Expr)
    ensures
        e@ == negate(t@),
{
    let ghost tv = t@;
    let params = vec![t];
    let e = new_expr(ExprType::Function(1), true, Some(Op::Neg), params);
    assert(views(params@) =~= seq![tv]);
    e
}

/// A copy of the bytes of `v`.
pub fn copy_bytes(v: &Vec<u8>) -> (r: Vec<u8>)
    ensures
        r@ == v@,
{
    let mut r: Vec<u8> = Vec::new();
    let mut k: usize = 0;
    while k < v.len()
        invariant
            k <= v@.len(),
            r@ == v@.subrange(0, k as int),
        decreases v@.len() - k,
    {
        r.push(v[k]);
        k = k + 1;
        assert(r@ =~= v@.subrange(0, k as int));
    }
    assert(r@ =~= v@);
    r
}

impl Clone for Expr {
    /// A deep copy of the node and its arguments.
    fn clone(&self) -> (r: Expr)
        ensures
            r@ == self@,
        decreases self,
    {
        let mut parameters: Vec<Expr> = Vec::new();
        let mut i: usize = 0;
        while i < self.parameters.len()
            invariant
                i <= self.parameters@.len(),
                parameters@.len() == i,
                forall|j: int| 0 <= j < i ==> (#[trigger] parameters@[j])@ == self.parameters@[j]@,
            decreases self.parameters@.len() - i,
        {
            parameters.push(self.parameters[i].clone());
            i = i + 1;
        }
        let r = Expr {
            e_type: self.e_type,
            pure: self.pure,
            value: copy_bytes(&self.value),
            bound: self.bound,
            function: self.function,
            parameters,
        };
        assert(r@.parameters =~= self@.parameters);
        r
    }
}

/// A binding supplied by the caller: a name and either the value of a
/// variable (`address`) or an operation with its kind and purity.
pub struct Variable {
    pub name: String,
    pub address: i8,
    pub function: Option<Op>,
    pub v_type: ExprType,
    pub pure: bool,
}

impl Clone for Variable {
    /// A copy of the binding.
    fn clone(&self) -> (r: Variable)
        ensures
            r == *self,
    {
        Variable {
            name: self.name.clone(),
            address: self.address,
            function: self.function,
            v_type: self.v_type,
            pure: self.pure,
        }
    }
}

impl Variable {
    /// A binding named `name` of kind `v_type`, with no value and no
    /// operation yet.
    pub fn new(name: &str, v_type: ExprType) -> (r: Variable)
        ensures
            r.name@ == name@,
            r.v_type == v_type,
            r.address == 0,
            r.function is None,
            !r.pure,
    {
        Variable { name: name.to_owned(), address: 0, function: None, v_type, pure: false }
    }
}

} // verus!
