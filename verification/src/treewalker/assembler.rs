//! The errors of the script assembler.

use vstd::prelude::*;

verus! {

#[derive(Debug)]
pub enum TwAsmError {
    InvalidLiteral,
    TypeUnsupportedInTable,
    NodeNotFound(String),
    IdentifierNotFound(String),
    DuplicateReturn,
    ParamNotFound(String),
    DuplicateParam(String),
}

impl TwAsmError {
    /// The error as a message.
    pub fn message(&self) -> (text: String)
        ensures
            text@ == spec_message(*self),
    {
        match self {
            TwAsmError::InvalidLiteral => "invalid literal".to_string(),
            TwAsmError::TypeUnsupportedInTable => "type unsupported in table".to_string(),
            TwAsmError::NodeNotFound(name) => "node not found: ".to_string().concat(name.as_str()),
            TwAsmError::IdentifierNotFound(name) => "identifier not found: ".to_string().concat(name.as_str()),
            TwAsmError::DuplicateReturn => "duplicate return".to_string(),
            TwAsmError::ParamNotFound(name) => "param not found: ".to_string().concat(name.as_str()),
            TwAsmError::DuplicateParam(name) => "duplicate param: ".to_string().concat(name.as_str()),
        }
    }
}

/// The message of an assembler error.
pub open spec fn spec_message(e: TwAsmError) -> Seq<char> {
    match e {
        TwAsmError::InvalidLiteral => "invalid literal"@,
        TwAsmError::TypeUnsupportedInTable => "type unsupported in table"@,
        TwAsmError::NodeNotFound(name) => "node not found: "@ + name@,
        TwAsmError::IdentifierNotFound(name) => "identifier not found: "@ + name@,
        TwAsmError::DuplicateReturn => "duplicate return"@,
        TwAsmError::ParamNotFound(name) => "param not found: "@ + name@,
        TwAsmError::DuplicateParam(name) => "duplicate param: "@ + name@,
    }
}

} // verus!
