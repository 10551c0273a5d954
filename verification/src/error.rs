use vstd::prelude::*;

verus! {

// Stable numeric codes for every failure the reader and the evaluator can
// report.  Each code is carried inside a `DialError` value; there is no
// non-local exit mechanism anywhere in the interpreter.
pub const NO_REPRESENTATION: i16 = 100;

pub const NOT_A_PAIR: i16 = 101;

pub const NOT_A_SYMBOL: i16 = 102;

pub const NOT_A_PROCEDURE: i16 = 103;

pub const MALFORMED_LIST: i16 = 104;

pub const IF_MALFORMED: i16 = 105;

pub const LAMBDA_MALFORMED: i16 = 106;

pub const DEFINE_MALFORMED: i16 = 107;

pub const UNBOUND_SYMBOL: i16 = 108;

pub const NOT_EVALUABLE: i16 = 109;

pub const ARITY: i16 = 110;

pub const TYPE_MISMATCH: i16 = 111;

pub const SCOPE_GONE: i16 = 112;

pub const RECURSION_LIMIT: i16 = 113;

pub const UNCLOSED_PAREN: i16 = 200;

pub const UNEXPECTED_CLOSE: i16 = 201;

pub const UNEXPECTED_EOI: i16 = 202;

/// An error value of the interpreter: a stable numeric code plus a
/// human-readable message obtainable through `message`.
#[derive(Clone, Copy, Debug, PartialEq, Eq, Structural)]
pub struct DialError {
    pub code: i16,
}

/// The message that belongs to an error code.
pub open spec fn spec_message(code: i16) -> Seq<char> {
    if code == NO_REPRESENTATION {
        "no external representation"@
    } else if code == NOT_A_PAIR {
        "bad argument - not a pair"@
    } else if code == NOT_A_SYMBOL {
        "not a symbol"@
    } else if code == NOT_A_PROCEDURE {
        "not a proc"@
    } else if code == MALFORMED_LIST {
        "malformed evlis"@
    } else if code == IF_MALFORMED {
        "malformed if statement"@
    } else if code == LAMBDA_MALFORMED {
        "malformed lambda expression"@
    } else if code == DEFINE_MALFORMED {
        "malformed define expression"@
    } else if code == UNBOUND_SYMBOL {
        "symbol not found"@
    } else if code == NOT_EVALUABLE {
        "can't eval this"@
    } else if code == ARITY {
        "wrong number of args"@
    } else if code == TYPE_MISMATCH {
        "not a number"@
    } else if code == SCOPE_GONE {
        "closed-over scope gone"@
    } else if code == RECURSION_LIMIT {
        "recursion limit reached"@
    } else if code == UNCLOSED_PAREN {
        "missing close parenthesis"@
    } else if code == UNEXPECTED_CLOSE {
        "unexpected close bracket"@
    } else if code == UNEXPECTED_EOI {
        "unexpected end of expr"@
    } else {
        "unknown error"@
    }
}

impl DialError {
    pub fn new(code: i16) -> (r: DialError)
        ensures
            r == (DialError { code }),
    {
        DialError { code }
    }

    /// The human-readable text of this error.
    pub fn message(&self) -> (r: &'static str)
        ensures
            r@ == spec_message(self.code),
    {
        if self.code == NO_REPRESENTATION {
            "no external representation"
        } else if self.code == NOT_A_PAIR {
            "bad argument - not a pair"
        } else if self.code == NOT_A_SYMBOL {
            "not a symbol"
        } else if self.code == NOT_A_PROCEDURE {
            "not a proc"
        } else if self.code == MALFORMED_LIST {
            "malformed evlis"
        } else if self.code == IF_MALFORMED {
            "malformed if statement"
        } else if self.code == LAMBDA_MALFORMED {
            "malformed lambda expression"
        } else if self.code == DEFINE_MALFORMED {
            "malformed define expression"
        } else if self.code == UNBOUND_SYMBOL {
            "symbol not found"
        } else if self.code == NOT_EVALUABLE {
            "can't eval this"
        } else if self.code == ARITY {
            "wrong number of args"
        } else if self.code == TYPE_MISMATCH {
            "not a number"
        } else if self.code == SCOPE_GONE {
            "closed-over scope gone"
        } else if self.code == RECURSION_LIMIT {
            "recursion limit reached"
        } else if self.code == UNCLOSED_PAREN {
            "missing close parenthesis"
        } else if self.code == UNEXPECTED_CLOSE {
            "unexpected close bracket"
        } else if self.code == UNEXPECTED_EOI {
            "unexpected end of expr"
        } else {
            "unknown error"
        }
    }
}

} // verus!
