//! Error type of the expression compiler.
use vstd::prelude::*;

verus! {

/// What can go wrong while interpreting an expression.
#[derive(Debug)]
pub enum TinyExprError {
    /// A numeric literal (the bytes held) is not a valid decimal number.
    Parse(Vec<u8>),
    /// Any other failure, with its message.
    Other(String),
}

impl TinyExprError {
    /// The message of the error.
    pub fn description(&self) -> (r: String)
        ensures
            self matches TinyExprError::Other(m) ==> r@ == m@,
            self is Parse ==> r@ == "invalid float literal"@,
    {
        match self {
            TinyExprError::Parse(_) => "invalid float literal".to_owned(),
            TinyExprError::Other(m) => m.clone(),
        }
    }
}

impl From<String> for TinyExprError {
    fn from(err: String) -> TinyExprError {
        TinyExprError::Other(err)
    }
}

impl vstd::std_specs::convert::FromSpecImpl<String> for TinyExprError {
    open spec fn obeys_from_spec() -> bool {
        true
    }

    open spec fn from_spec(v: String) -> TinyExprError {
        TinyExprError::Other(v)
    }
}

} // verus!
