use vstd::prelude::*;

verus! {

#[derive(Debug, Clone)]
pub enum SyswhyError {
    InvalidQuery(String),
}

impl View for SyswhyError {
    type V = Seq<char>;

    /// The message of the error.
    open spec fn view(&self) -> Seq<char> {
        match self {
            SyswhyError::InvalidQuery(m) => m@,
        }
    }
}

impl PartialEq for SyswhyError {
    fn eq(&self, other: &Self) -> (r: bool) {
        match (self, other) {
            (SyswhyError::InvalidQuery(a), SyswhyError::InvalidQuery(b)) => crate::domain::text::text_eq(a.as_str(), b.as_str()),
        }
    }
}

impl Eq for SyswhyError {}

impl vstd::std_specs::cmp::PartialEqSpecImpl for SyswhyError {
    open spec fn obeys_eq_spec() -> bool {
        true
    }

    open spec fn eq_spec(&self, other: &Self) -> bool {
        self@ == other@
    }
}

/// The text of an error as it is shown to the user.
pub open spec fn error_text(e: Seq<char>) -> Seq<char> {
    "invalid query: "@ + e
}

impl SyswhyError {
    /// The text shown for this error, as its `Display` writes it.
    pub fn to_string(&self) -> (r: String)
        ensures
            r@ == error_text(self@),
    {
        match self {
            SyswhyError::InvalidQuery(message) => {
                let mut r = String::new();
                r.append("invalid query: ");
                r.append(message.as_str());
                r
            },
        }
    }
}

} // verus!
