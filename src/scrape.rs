use vstd::prelude::*;
use vstd::string::StringExecFns;

verus! {

/// A street together with its service date, as discovered in the remote catalog.
pub struct Pickup {
    pub street: String,
    pub date: String,
}

/// One selectable street of the remote catalog: its display name and the form
/// value that identifies it.
pub struct Query {
    pub street: String,
    pub value: String,
}

/// What `str::trim` gives for a character sequence.
pub uninterp spec fn trimmed_of(s: Seq<char>) -> Seq<char>;

/// Relies on `str::trim`: `s` without its leading and trailing white space, which
/// depends on the characters of `s` alone.
#[verifier::external_body]
fn trim(s: &str) -> (r: String)
    ensures
        r@ == trimmed_of(s@),
{
    s.trim().to_string()
}

impl Query {
    /// Builds the query of one catalog option from its `value` attribute and its
    /// text: none without a value, else the trimmed text as the street name.
    pub fn from(value: Option<String>, text: &str) -> (r: Option<Query>)
        ensures
            match value {
                Some(v) => r is Some && r->0.street@ == trimmed_of(text@) && r->0.value@ == v@,
                None => r is None,
            },
    {
        match value {
            Some(v) => Some(Query { street: trim(text), value: v }),
            None => None,
        }
    }
}

impl Pickup {
    /// The pickup as one line of the semicolon-separated listing.
    pub fn csv_line(&self) -> (r: String)
        ensures
            r@ == self.street@ + ";"@ + self.date@ + "\n"@,
    {
        let mut line = self.street.clone();
        line.append(";");
        line.append(self.date.as_str());
        line.append("\n");
        line
    }
}

} // verus!
