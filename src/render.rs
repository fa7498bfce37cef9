use vstd::prelude::*;
use crate::geo;

verus! {

/// Declares chrono's parse error, which the date parser returns.
#[verifier::external_type_specification]
#[verifier::external_body]
pub struct ExParseError(chrono::format::ParseError);

/// What parsing `s` as a date in the format `fmt` and taking midnight UTC of that
/// date in milliseconds since the Unix epoch gives; none when `s` does not parse.
pub uninterp spec fn date_millis_of(s: Seq<char>, fmt: Seq<char>) -> Option<i64>;

/// Relies on `chrono::NaiveDate::parse_from_str`, followed by the conversion of the
/// date's midnight (UTC) to epoch milliseconds.
#[verifier::external_body]
fn parse_date_millis(s: &str, fmt: &str) -> (r: Result<i64, chrono::format::ParseError>)
    ensures
        match r {
            Ok(m) => date_millis_of(s@, fmt@) == Some(m),
            Err(_) => date_millis_of(s@, fmt@) is None,
        },
{
    chrono::NaiveDate::parse_from_str(s, fmt).map(
        |d| d.and_time(chrono::NaiveTime::MIN).and_utc().timestamp_millis(),
    )
}

/// The date format of the catalog: day, month and four-digit year, dot-separated.
pub open spec fn date_format() -> Seq<char> {
    "%d.%m.%Y"@
}

/// A street geometry ready for the map page: the date as epoch milliseconds.
pub struct Pickup {
    pub street: String,
    pub date: i64,
    pub segments: Vec<Vec<geo::Point>>,
}

/// The date of a geometry does not parse in the catalog's format.
#[derive(Clone, Copy, Debug, PartialEq, Eq, Structural)]
pub struct InvalidDate;

impl Pickup {
    /// Converts a resolved geometry, parsing its date as `dd.mm.yyyy`.
    pub fn from(pickup: geo::Pickup) -> (r: Result<Pickup, InvalidDate>)
        ensures
            match r {
                Ok(p) => date_millis_of(pickup.date@, date_format()) == Some(p.date) && p.street
                    == pickup.street && p.segments == pickup.segments,
                Err(_) => date_millis_of(pickup.date@, date_format()) is None,
            },
    {
        let fmt = "%d.%m.%Y";
        proof {
            reveal_strlit("%d.%m.%Y");
        }
        match parse_date_millis(pickup.date.as_str(), fmt) {
            Ok(date) => Ok(Pickup { street: pickup.street, date, segments: pickup.segments }),
            Err(_) => Err(InvalidDate),
        }
    }
}

} // verus!
