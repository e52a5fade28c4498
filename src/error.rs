use vstd::prelude::*;

verus! {

/// Errors of the library.
#[derive(Debug, Clone, PartialEq, Eq)]
pub enum RustQuantError {
    FileNotFound(String),
    InvalidFormat,
    /// A configuration value is out of its allowed range.
    InvalidConfig,
    /// An amount of money, a quantity or a count left the range the engine
    /// tracks.
    Overflow,
}

impl RustQuantError {
    /// Text describing the error.
    pub open spec fn message_text(&self) -> Seq<char> {
        match self {
            RustQuantError::FileNotFound(p) => "File not found: "@ + p@,
            RustQuantError::InvalidFormat => "Invalid data format"@,
            RustQuantError::InvalidConfig => "Invalid configuration"@,
            RustQuantError::Overflow => "Amount out of range"@,
        }
    }

    /// Human-readable description of the error.
    pub fn message(&self) -> (r: String)
        ensures
            r@ == self.message_text(),
    {
        match self {
            RustQuantError::FileNotFound(p) => {
                let mut s = String::from_str("File not found: ");
                s.append(p.as_str());
                s
            },
            RustQuantError::InvalidFormat => String::from_str("Invalid data format"),
            RustQuantError::InvalidConfig => String::from_str("Invalid configuration"),
            RustQuantError::Overflow => String::from_str("Amount out of range"),
        }
    }
}

} // verus!
