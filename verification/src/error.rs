//! The error that the data sources of the library report.
use vstd::prelude::*;

verus! {

/// Why a data source could not deliver.
#[derive(Debug, Clone)]
pub enum ProviderError {
    /// The source does not offer this operation.
    NotImplemented,
    /// A date argument was not in the expected form; holds the argument.
    InvalidDate(String),
    /// A document could not be read as XML; holds the reader's message.
    Xml(String),
    /// The source itself reported a failure; holds its message.
    Source(String),
}

impl ProviderError {
    /// The text that `message` gives.
    pub open spec fn message_spec(&self) -> Seq<char> {
        match self {
            ProviderError::NotImplemented => "the operation is not implemented for this provider"@,
            ProviderError::InvalidDate(d) => "invalid date: "@ + d@,
            ProviderError::Xml(m) => "XML parse error: "@ + m@,
            ProviderError::Source(m) => m@,
        }
    }

    /// A readable description of the error.
    pub fn message(&self) -> (s: String)
        ensures
            s@ == self.message_spec(),
    {
        match self {
            ProviderError::NotImplemented => "the operation is not implemented for this provider".to_owned(),
            ProviderError::InvalidDate(d) => {
                let mut v = crate::text::chars_of("invalid date: ");
                let dv = crate::text::chars_of(d.as_str());
                crate::text::append_chars(&mut v, &dv);
                crate::text::string_of(&v)
            },
            ProviderError::Xml(m) => {
                let mut v = crate::text::chars_of("XML parse error: ");
                let mv = crate::text::chars_of(m.as_str());
                crate::text::append_chars(&mut v, &mv);
                crate::text::string_of(&v)
            },
            ProviderError::Source(m) => m.clone(),
        }
    }
}

} // verus!
