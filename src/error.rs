//! The fatal errors of a run.
use vstd::prelude::*;
use vstd::string::*;

verus! {

/// Why a run stopped before printing.
pub enum ToolError {
    /// The filter pattern is not a valid regular expression.
    InvalidPattern { pattern: String },
    /// A requested variable is not set, and unset variables are fatal.
    UnsetVariable { name: String },
    /// The value of the named variable is not valid text.
    UndecodableValue { name: String },
    /// A value is not valid text, and neither is its variable's name.
    UnreadableName,
}

/// What a `ToolError` says, as mathematical values.
pub enum ErrorView {
    InvalidPattern(Seq<char>),
    UnsetVariable(Seq<char>),
    UndecodableValue(Seq<char>),
    UnreadableName,
}

impl View for ToolError {
    type V = ErrorView;

    open spec fn view(&self) -> ErrorView {
        match self {
            ToolError::InvalidPattern { pattern } => ErrorView::InvalidPattern(pattern@),
            ToolError::UnsetVariable { name } => ErrorView::UnsetVariable(name@),
            ToolError::UndecodableValue { name } => ErrorView::UndecodableValue(name@),
            ToolError::UnreadableName => ErrorView::UnreadableName,
        }
    }
}

/// The message shown to the user for an error.
pub open spec fn message_of(e: ErrorView) -> Seq<char> {
    match e {
        ErrorView::InvalidPattern(p) => "invalid regular expression: "@ + p,
        ErrorView::UnsetVariable(n) => "environment variable is unset: "@ + n,
        ErrorView::UndecodableValue(n) => "could not read value of environment variable "@ + n,
        ErrorView::UnreadableName => "could not read value of an environment variable whose name is unreadable too"@,
    }
}

impl ToolError {
    /// A message for the user.
    pub fn message(&self) -> (r: String)
        ensures
            r@ == message_of(self@),
    {
        let (lead, name) = match self {
            ToolError::InvalidPattern { pattern } => ("invalid regular expression: ", pattern.as_str()),
            ToolError::UnsetVariable { name } => ("environment variable is unset: ", name.as_str()),
            ToolError::UndecodableValue { name } => (
                "could not read value of environment variable ",
                name.as_str(),
            ),
            ToolError::UnreadableName => (
                "could not read value of an environment variable whose name is unreadable too",
                "",
            ),
        };
        proof {
            reveal_strlit("");
            assert(name@ == Seq::<char>::empty() ==> lead@ + name@ == lead@);
        }
        let mut text = String::from_str(lead);
        text.append(name);
        text
    }
}

} // verus!
