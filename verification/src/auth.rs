use vstd::prelude::*;

verus! {

/// The scopes required to access the Google Sheets API.
#[derive(Debug, Clone, Copy, PartialEq, Eq, Structural)]
pub enum AccessScope {
    ReadOnly,
}

impl AccessScope {
    /// The OAuth scope URL that the scope stands for.
    pub fn as_ref(&self) -> (url: &'static str)
        ensures
            url@ == "https://www.googleapis.com/auth/spreadsheets.readonly"@,
    {
        match self {
            AccessScope::ReadOnly => "https://www.googleapis.com/auth/spreadsheets.readonly",
        }
    }
}

} // verus!
