//! The pickup sites: a closed set, each with its display name, the short
//! code that names its worksheet, and the column offset of its tally sheet.

use crate::text::str_eq;
use vstd::prelude::*;
use vstd::string::*;

verus! {

/// A pickup site. `NotParsed` stands for a location cell that names no site
/// because the contract is inactive.
#[derive(Clone, Copy, Debug, PartialEq, Eq, Structural)]
pub enum Location {
    Perouse,
    Gerlingen,
    Renningen,
    WeilDerStadt,
    Leonberg,
    Neuhausen,
    NotParsed,
}

/// A location text that names no pickup site.
#[derive(Debug)]
pub struct UnknownLocation {
    pub text: String,
}

impl UnknownLocation {
    /// The cause, for the operator.
    pub fn message(&self) -> (out: String)
        ensures
            out@ == "Cannot parse Location "@ + self.text@,
    {
        let mut out = String::from_str("Cannot parse Location ");
        out.append(self.text.as_str());
        out
    }
}

impl Location {
    /// The text that denotes this location in the roster and in the
    /// exemption log.
    pub open spec fn spec_name(self) -> Seq<char> {
        match self {
            Location::Perouse => "Perouse"@,
            Location::Gerlingen => "Gerlingen"@,
            Location::Renningen => "Renningen"@,
            Location::WeilDerStadt => "Weil der Stadt"@,
            Location::Leonberg => "Leonberg"@,
            Location::Neuhausen => "Neuhausen"@,
            Location::NotParsed => "Error NA"@,
        }
    }

    /// The three-letter code that names this location's worksheet.
    pub open spec fn spec_short(self) -> Seq<char> {
        match self {
            Location::Perouse => "PER"@,
            Location::Gerlingen => "GER"@,
            Location::Renningen => "REN"@,
            Location::WeilDerStadt => "WDS"@,
            Location::Leonberg => "LEO"@,
            Location::Neuhausen => "NEU"@,
            Location::NotParsed => "NOT"@,
        }
    }

    /// By how many columns the second sub-table of this location's tally
    /// sheet is shifted: not at all for the oldest site, by one elsewhere.
    pub open spec fn spec_column_offset(self) -> nat {
        if self == Location::Perouse {
            0
        } else {
            1
        }
    }

    /// All locations, in the order in which a report goes through them.
    pub open spec fn spec_all() -> Seq<Location> {
        seq![
            Location::Perouse,
            Location::Gerlingen,
            Location::Renningen,
            Location::WeilDerStadt,
            Location::Leonberg,
            Location::Neuhausen,
            Location::NotParsed,
        ]
    }

    /// Reads a location cell: the exact display name of a site, or the
    /// sentinel of an inactive contract. Any other text is an error.
    pub fn parse(location: &str) -> (parsed: Result<Location, UnknownLocation>)
        ensures
            match parsed {
                Ok(found) => found.spec_name() == location@,
                Err(unknown) => unknown.text@ == location@ && forall|l: Location|
                    l.spec_name() != location@,
            },
    {
        if str_eq(location, "Gerlingen") {
            Ok(Location::Gerlingen)
        } else if str_eq(location, "Perouse") {
            Ok(Location::Perouse)
        } else if str_eq(location, "Weil der Stadt") {
            Ok(Location::WeilDerStadt)
        } else if str_eq(location, "Renningen") {
            Ok(Location::Renningen)
        } else if str_eq(location, "Leonberg") {
            Ok(Location::Leonberg)
        } else if str_eq(location, "Neuhausen") {
            Ok(Location::Neuhausen)
        } else if str_eq(location, "Error NA") {
            Ok(Location::NotParsed)
        } else {
            Err(UnknownLocation { text: String::from_str(location) })
        }
    }

    /// The display name of a location.
    pub fn name(&self) -> (out: &'static str)
        ensures
            out@ == self.spec_name(),
    {
        match self {
            Location::Perouse => "Perouse",
            Location::Gerlingen => "Gerlingen",
            Location::Renningen => "Renningen",
            Location::WeilDerStadt => "Weil der Stadt",
            Location::Leonberg => "Leonberg",
            Location::Neuhausen => "Neuhausen",
            Location::NotParsed => "Error NA",
        }
    }

    /// The worksheet code of a location.
    pub fn to_short(location: &Self) -> (code: &'static str)
        ensures
            code@ == location.spec_short(),
    {
        match location {
            Location::Perouse => "PER",
            Location::Gerlingen => "GER",
            Location::Renningen => "REN",
            Location::WeilDerStadt => "WDS",
            Location::Leonberg => "LEO",
            Location::Neuhausen => "NEU",
            Location::NotParsed => "NOT",
        }
    }

    /// The column offset of a location's tally sheet.
    pub fn column_offset(&self) -> (offset: usize)
        ensures
            offset == self.spec_column_offset(),
    {
        match self {
            Location::Perouse => 0,
            _ => 1,
        }
    }

    /// All locations, in report order.
    pub fn all() -> (out: Vec<Location>)
        ensures
            out@ == Location::spec_all(),
    {
        let mut out: Vec<Location> = Vec::new();
        out.push(Location::Perouse);
        out.push(Location::Gerlingen);
        out.push(Location::Renningen);
        out.push(Location::WeilDerStadt);
        out.push(Location::Leonberg);
        out.push(Location::Neuhausen);
        out.push(Location::NotParsed);
        assert(out@ =~= Location::spec_all());
        out
    }

    /// Whether two locations are the same site.
    pub fn same(&self, other: &Location) -> (yes: bool)
        ensures
            yes == (*self == *other),
    {
        *self == *other
    }
}

proof fn reveal_names()
    ensures
        "Perouse"@.len() == 7 && "Perouse"@[0] == 'P',
        "Gerlingen"@.len() == 9 && "Gerlingen"@[0] == 'G',
        "Renningen"@.len() == 9 && "Renningen"@[0] == 'R',
        "Weil der Stadt"@.len() == 14,
        "Leonberg"@.len() == 8 && "Leonberg"@[0] == 'L',
        "Neuhausen"@.len() == 9 && "Neuhausen"@[0] == 'N',
        "Error NA"@.len() == 8 && "Error NA"@[0] == 'E',
{
    reveal_strlit("Perouse");
    reveal_strlit("Gerlingen");
    reveal_strlit("Renningen");
    reveal_strlit("Weil der Stadt");
    reveal_strlit("Leonberg");
    reveal_strlit("Neuhausen");
    reveal_strlit("Error NA");
}

proof fn reveal_codes()
    ensures
        "PER"@ == seq!['P', 'E', 'R'],
        "GER"@ == seq!['G', 'E', 'R'],
        "REN"@ == seq!['R', 'E', 'N'],
        "WDS"@ == seq!['W', 'D', 'S'],
        "LEO"@ == seq!['L', 'E', 'O'],
        "NEU"@ == seq!['N', 'E', 'U'],
        "NOT"@ == seq!['N', 'O', 'T'],
{
    reveal_strlit("PER");
    reveal_strlit("GER");
    reveal_strlit("REN");
    reveal_strlit("WDS");
    reveal_strlit("LEO");
    reveal_strlit("NEU");
    reveal_strlit("NOT");
    assert("PER"@ =~= seq!['P', 'E', 'R']);
    assert("GER"@ =~= seq!['G', 'E', 'R']);
    assert("REN"@ =~= seq!['R', 'E', 'N']);
    assert("WDS"@ =~= seq!['W', 'D', 'S']);
    assert("LEO"@ =~= seq!['L', 'E', 'O']);
    assert("NEU"@ =~= seq!['N', 'E', 'U']);
    assert("NOT"@ =~= seq!['N', 'O', 'T']);
}

/// No two locations share a display name, so a location cell denotes at most
/// one location.
pub proof fn lemma_names_distinct(a: Location, b: Location)
    requires
        a != b,
    ensures
        a.spec_name() != b.spec_name(),
{
    reveal_names();
}

/// The worksheet codes have three letters each, and no two locations share
/// one.
pub proof fn lemma_short_codes_distinct(a: Location, b: Location)
    ensures
        a.spec_short().len() == 3,
        a != b ==> a.spec_short() != b.spec_short(),
{
    reveal_codes();
    if a != b {
        let x = a.spec_short();
        let y = b.spec_short();
        assert(x[0] != y[0] || x[1] != y[1] || x[2] != y[2]);
    }
}

/// Every location is on the list that a report goes through.
pub proof fn lemma_all_holds_every_location(l: Location)
    ensures
        Location::spec_all().contains(l),
{
    let all = Location::spec_all();
    match l {
        Location::Perouse => assert(all[0] == l),
        Location::Gerlingen => assert(all[1] == l),
        Location::Renningen => assert(all[2] == l),
        Location::WeilDerStadt => assert(all[3] == l),
        Location::Leonberg => assert(all[4] == l),
        Location::Neuhausen => assert(all[5] == l),
        Location::NotParsed => assert(all[6] == l),
    }
}

} // verus!
