use vstd::prelude::*;

verus! {

/// The encodings in which the fetched pickups can be written.
#[derive(Clone, Copy, Debug, PartialEq, Eq, Structural)]
pub enum Format {
    Json,
    Csv,
}

/// The file extension names no supported encoding.
#[derive(Clone, Copy, Debug, PartialEq, Eq, Structural)]
pub struct UnsupportedExtension;

impl Format {
    /// The encoding that a file extension names: `json` or `csv`, exactly.
    pub fn from_extension(extension: &str) -> (r: Result<Format, UnsupportedExtension>)
        ensures
            extension@ == "json"@ ==> r == Ok::<Format, UnsupportedExtension>(Format::Json),
            extension@ == "csv"@ ==> r == Ok::<Format, UnsupportedExtension>(Format::Csv),
            extension@ != "json"@ && extension@ != "csv"@ ==> r == Err::<Format, UnsupportedExtension>(
                UnsupportedExtension,
            ),
    {
        proof {
            reveal_strlit("json");
            reveal_strlit("csv");
            assert("json"@[0] != "csv"@[0]);
        }
        let ext = extension.to_owned();
        if ext == "json".to_owned() {
            return Ok(Format::Json);
        }
        if ext == "csv".to_owned() {
            return Ok(Format::Csv);
        }
        Err(UnsupportedExtension)
    }
}

} // verus!
