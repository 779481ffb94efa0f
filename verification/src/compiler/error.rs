use vstd::prelude::*;

verus! {

/// The kinds of error the parser reports.
#[derive(Debug, Clone, Copy, PartialEq, Eq, Structural)]
pub enum ET {
    ExpectedCParen,
    ExpectedOParen,
    ExpectedStatement,
    ExpectedId,
    ExpectedSemi,
    ExpectedExpression,
    ExpectedType,
    ExpectedCondition,
    ExpectedStrLiteral,
}

/// A parse error together with the source line of the token it was found at.
#[derive(Debug, Clone, Copy, PartialEq, Eq, Structural)]
pub struct RhErr {
    pub err: ET,
    pub line: i32,
}

} // verus!
