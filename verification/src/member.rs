//! The membership directory: the members of the cooperative, the filters
//! that pick out who is expected at a pickup, and the search for duplicate
//! keys.

use crate::cell::{cell_at, empty_cell, Cell, CellKind, CellView};
use crate::joker::Joker;
use crate::location::Location;
use crate::seqs::{
    lemma_filter_empty, lemma_filter_holds, lemma_filter_prefix, lemma_filter_take_next,
};
use crate::text::{
    decimal_digits, decimal_text, decimal_u32, lowercase, lowercased, parse_u32, str_eq, trim,
    trimmed,
};
use vstd::prelude::*;
use vstd::string::*;

verus! {

/// A subscriber: entitled to `big` large and `small` small shares a week, to
/// be picked up at `location`.
#[derive(Debug)]
pub struct Member {
    pub contract_no: String,
    pub member_no: u32,
    pub surname: String,
    pub forename: String,
    pub big: u32,
    pub small: u32,
    pub location: Location,
    pub active: bool,
}

/// The members of a roster, in the order of its rows.
pub type MemberList = Vec<Member>;

impl Clone for Member {
    fn clone(&self) -> (copy: Self)
        ensures
            copy == *self,
    {
        Member {
            contract_no: self.contract_no.clone(),
            member_no: self.member_no,
            surname: self.surname.clone(),
            forename: self.forename.clone(),
            big: self.big,
            small: self.small,
            location: self.location,
            active: self.active,
        }
    }
}

/// Why a row of the roster is no member.
#[derive(Clone, Copy, Debug, PartialEq, Eq, Structural)]
pub enum MemberError {
    /// The member number is no text that spells a number.
    MemberNo,
    /// The location cell has no text.
    Location,
    /// The activity flag is neither `aktiv` nor `inaktiv`.
    Activity,
    /// The contract number has no text.
    ContractNo,
    /// The surname has no text.
    Surname,
    /// The forename has no text.
    Forename,
    /// The number of big shares is no text that spells a number.
    Big,
    /// The number of small shares is no text that spells a number.
    Small,
    /// The location cell names no pickup site.
    UnknownLocation,
}

impl MemberError {
    /// The cause as a text.
    pub open spec fn spec_message(self) -> Seq<char> {
        match self {
            MemberError::MemberNo => "Cannot parse member no"@,
            MemberError::Location => "Cannot parse location"@,
            MemberError::Activity => "Error while parsing activity"@,
            MemberError::ContractNo => "Cannot parse contract no"@,
            MemberError::Surname => "Cannot parse surname"@,
            MemberError::Forename => "Cannot parse forename"@,
            MemberError::Big => "Cannot parse big"@,
            MemberError::Small => "Cannot parse small"@,
            MemberError::UnknownLocation => "Cannot parse Location"@,
        }
    }

    /// The cause, for the operator.
    pub fn message(&self) -> (out: &'static str)
        ensures
            out@ == self.spec_message(),
    {
        match self {
            MemberError::MemberNo => "Cannot parse member no",
            MemberError::Location => "Cannot parse location",
            MemberError::Activity => "Error while parsing activity",
            MemberError::ContractNo => "Cannot parse contract no",
            MemberError::Surname => "Cannot parse surname",
            MemberError::Forename => "Cannot parse forename",
            MemberError::Big => "Cannot parse big",
            MemberError::Small => "Cannot parse small",
            MemberError::UnknownLocation => "Cannot parse Location",
        }
    }
}

/// What an activity flag says: `aktiv` is active, `inaktiv` is not, and any
/// other text is no flag.
pub open spec fn activity_of(text: Seq<char>) -> Option<bool> {
    if text == "aktiv"@ {
        Some(true)
    } else if text == "inaktiv"@ {
        Some(false)
    } else {
        None
    }
}

/// The number that a cell's text spells.
pub open spec fn count_of(cell: CellView) -> Option<u32> {
    match cell.text {
        Some(text) => decimal_u32(text),
        None => None,
    }
}

/// The cells of a roster row that a member is read from.
pub struct MemberCells {
    pub contract_no: CellView,
    pub member_no: CellView,
    pub surname: CellView,
    pub forename: CellView,
    pub big: CellView,
    pub small: CellView,
    pub location: CellView,
    pub active: CellView,
}

/// What keeps a row of the roster from being a member: the first of the
/// causes, in the order in which the cells are read.
pub open spec fn member_error(cells: MemberCells) -> Option<MemberError> {
    if count_of(cells.member_no).is_none() {
        Some(MemberError::MemberNo)
    } else if cells.location.text.is_none() {
        Some(MemberError::Location)
    } else if cells.active.text.is_none() || activity_of(cells.active.text->0).is_none() {
        Some(MemberError::Activity)
    } else if cells.contract_no.text.is_none() {
        Some(MemberError::ContractNo)
    } else if cells.surname.text.is_none() {
        Some(MemberError::Surname)
    } else if cells.forename.text.is_none() {
        Some(MemberError::Forename)
    } else if count_of(cells.big).is_none() {
        Some(MemberError::Big)
    } else if count_of(cells.small).is_none() {
        Some(MemberError::Small)
    } else if forall|l: Location| l.spec_name() != cells.location.text->0 {
        Some(MemberError::UnknownLocation)
    } else {
        None
    }
}

/// Whether a member is what its cells say: the texts of contract number,
/// names and location, the numbers that the texts of member number and
/// shares spell, and the activity that the flag names. Surname and forename
/// stand without the white space around them.
pub open spec fn is_member_of(member: Member, cells: MemberCells) -> bool {
    &&& Some(member.contract_no@) == cells.contract_no.text
    &&& Some(member.member_no) == count_of(cells.member_no)
    &&& cells.surname.text matches Some(text) && member.surname@ == trimmed(text)
    &&& cells.forename.text matches Some(text) && member.forename@ == trimmed(text)
    &&& Some(member.big) == count_of(cells.big)
    &&& Some(member.small) == count_of(cells.small)
    &&& Some(member.location.spec_name()) == cells.location.text
    &&& cells.active.text matches Some(text) && Some(member.active) == activity_of(text)
}

/// What a row of the roster is read as: the member that its cells say, or
/// the first cause that keeps it from being one.
pub open spec fn is_read_as(made: Result<Member, MemberError>, cells: MemberCells) -> bool {
    match made {
        Ok(member) => member_error(cells).is_none() && is_member_of(member, cells),
        Err(cause) => member_error(cells) == Some(cause),
    }
}

fn cell_count(cell: &Cell) -> (count: Option<u32>)
    ensures
        count == count_of(cell@),
{
    match &cell.text {
        Some(text) => parse_u32(text.as_str()),
        None => None,
    }
}

fn activity(text: &str) -> (flag: Option<bool>)
    ensures
        flag == activity_of(text@),
{
    if str_eq(text, "aktiv") {
        Some(true)
    } else if str_eq(text, "inaktiv") {
        Some(false)
    } else {
        None
    }
}

impl Member {
    /// Reads a member off the cells of a roster row. Every cell has to have
    /// a text; the numbers are written in decimal; surname and forename are
    /// kept without the white space around them.
    pub fn new(
        contract_no: &Cell,
        member_no: &Cell,
        surname: &Cell,
        forename: &Cell,
        big: &Cell,
        small: &Cell,
        location: &Cell,
        active: &Cell,
    ) -> (made: Result<Member, MemberError>)
        ensures
            is_read_as(
                made,
                MemberCells {
                    contract_no: contract_no@,
                    member_no: member_no@,
                    surname: surname@,
                    forename: forename@,
                    big: big@,
                    small: small@,
                    location: location@,
                    active: active@,
                },
            ),
    {
        let number = match cell_count(member_no) {
            Some(number) => number,
            None => {
                return Err(MemberError::MemberNo);
            },
        };
        let place = match &location.text {
            Some(text) => text,
            None => {
                return Err(MemberError::Location);
            },
        };
        let flag = match &active.text {
            Some(text) => activity(text.as_str()),
            None => None,
        };
        let is_active = match flag {
            Some(flag) => flag,
            None => {
                return Err(MemberError::Activity);
            },
        };
        let contract = match &contract_no.text {
            Some(text) => text,
            None => {
                return Err(MemberError::ContractNo);
            },
        };
        let family = match &surname.text {
            Some(text) => text,
            None => {
                return Err(MemberError::Surname);
            },
        };
        let given = match &forename.text {
            Some(text) => text,
            None => {
                return Err(MemberError::Forename);
            },
        };
        let big_shares = match cell_count(big) {
            Some(count) => count,
            None => {
                return Err(MemberError::Big);
            },
        };
        let small_shares = match cell_count(small) {
            Some(count) => count,
            None => {
                return Err(MemberError::Small);
            },
        };
        let site = match Location::parse(place.as_str()) {
            Ok(site) => site,
            Err(_) => {
                return Err(MemberError::UnknownLocation);
            },
        };
        Ok(
            Member {
                contract_no: contract.clone(),
                member_no: number,
                surname: String::from_str(trim(family.as_str())),
                forename: String::from_str(trim(given.as_str())),
                big: big_shares,
                small: small_shares,
                location: site,
                active: is_active,
            },
        )
    }

    /// A member with the given values.
    pub fn new_from_values(
        contract_no: &str,
        member_no: u32,
        surname: &str,
        forename: &str,
        big: u32,
        small: u32,
        location: Location,
        active: bool,
    ) -> (member: Member)
        ensures
            member.contract_no@ == contract_no@,
            member.member_no == member_no,
            member.surname@ == surname@,
            member.forename@ == forename@,
            member.big == big,
            member.small == small,
            member.location == location,
            member.active == active,
    {
        Member {
            contract_no: String::from_str(contract_no),
            member_no,
            surname: String::from_str(surname),
            forename: String::from_str(forename),
            big,
            small,
            location,
            active,
        }
    }
}

/// The members whose contract is active.
pub open spec fn is_active() -> spec_fn(Member) -> bool {
    |m: Member| m.active
}

/// The members who pick up at `location`.
pub open spec fn picks_up_at(location: Location) -> spec_fn(Member) -> bool {
    |m: Member| m.location == location
}

/// The members entitled to at least one small share.
pub open spec fn has_small() -> spec_fn(Member) -> bool {
    |m: Member| m.small >= 1
}

/// The members entitled to at least one big share.
pub open spec fn has_big() -> spec_fn(Member) -> bool {
    |m: Member| m.big >= 1
}

/// Whether a joker was declared by the member: surname and forename agree up
/// to case.
pub open spec fn joker_is_of(joker: Joker, member: Member) -> bool {
    &&& lowercased(joker.surname@) == lowercased(member.surname@)
    &&& lowercased(joker.forename@) == lowercased(member.forename@)
}

/// Whether one of the jokers was declared by the member.
pub open spec fn has_joker(member: Member, jokers: Seq<Joker>) -> bool {
    exists|j: int| 0 <= j < jokers.len() && joker_is_of(#[trigger] jokers[j], member)
}

/// The members who declared none of the jokers.
pub open spec fn without_joker(jokers: Seq<Joker>) -> spec_fn(Member) -> bool {
    |m: Member| !has_joker(m, jokers)
}

/// The active members, in their order.
pub fn filter_active_members(members: MemberList) -> (active: MemberList)
    ensures
        active@ == members@.filter(is_active()),
{
    let mut active: MemberList = Vec::new();
    proof {
        lemma_filter_empty::<Member>(is_active());
        assert(members@.take(0) =~= Seq::<Member>::empty());
    }
    for i in 0..members.len()
        invariant
            active@ == members@.take(i as int).filter(is_active()),
    {
        proof {
            lemma_filter_take_next(members@, i as int, is_active());
        }
        if members[i].active {
            active.push(members[i].clone());
        }
    }
    assert(members@.take(members@.len() as int) =~= members@);
    active
}

/// The members who pick up at `location`, in their order.
pub fn filter_members_by_location(members: &MemberList, location: Location) -> (found: MemberList)
    ensures
        found@ == members@.filter(picks_up_at(location)),
{
    let mut found: MemberList = Vec::new();
    proof {
        lemma_filter_empty::<Member>(picks_up_at(location));
        assert(members@.take(0) =~= Seq::<Member>::empty());
    }
    for i in 0..members.len()
        invariant
            found@ == members@.take(i as int).filter(picks_up_at(location)),
    {
        proof {
            lemma_filter_take_next(members@, i as int, picks_up_at(location));
        }
        if members[i].location == location {
            found.push(members[i].clone());
        }
    }
    assert(members@.take(members@.len() as int) =~= members@);
    found
}

/// The members entitled to a small share, in their order.
pub fn filter_members_by_small(members: &MemberList) -> (found: MemberList)
    ensures
        found@ == members@.filter(has_small()),
{
    let mut found: MemberList = Vec::new();
    proof {
        lemma_filter_empty::<Member>(has_small());
        assert(members@.take(0) =~= Seq::<Member>::empty());
    }
    for i in 0..members.len()
        invariant
            found@ == members@.take(i as int).filter(has_small()),
    {
        proof {
            lemma_filter_take_next(members@, i as int, has_small());
        }
        if members[i].small >= 1 {
            found.push(members[i].clone());
        }
    }
    assert(members@.take(members@.len() as int) =~= members@);
    found
}

/// The members entitled to a big share, in their order.
pub fn filter_members_by_big(members: &MemberList) -> (found: MemberList)
    ensures
        found@ == members@.filter(has_big()),
{
    let mut found: MemberList = Vec::new();
    proof {
        lemma_filter_empty::<Member>(has_big());
        assert(members@.take(0) =~= Seq::<Member>::empty());
    }
    for i in 0..members.len()
        invariant
            found@ == members@.take(i as int).filter(has_big()),
    {
        proof {
            lemma_filter_take_next(members@, i as int, has_big());
        }
        if members[i].big >= 1 {
            found.push(members[i].clone());
        }
    }
    assert(members@.take(members@.len() as int) =~= members@);
    found
}

/// Whether a joker was declared by a member, given the names of both in
/// lowercase: surnames and forenames are the same.
pub fn lowered_names_agree(
    joker_surname: &str,
    joker_forename: &str,
    member_surname: &str,
    member_forename: &str,
) -> (agree: bool)
    ensures
        agree == (joker_surname@ == member_surname@ && joker_forename@ == member_forename@),
{
    str_eq(joker_surname, member_surname) && str_eq(joker_forename, member_forename)
}

/// Whether one of `jokers` was declared by `member`.
pub fn member_has_joker(member: &Member, jokers: &[Joker]) -> (found: bool)
    ensures
        found == has_joker(*member, jokers@),
{
    let surname = lowercase(member.surname.as_str());
    let forename = lowercase(member.forename.as_str());
    for j in 0..jokers.len()
        invariant
            surname@ == lowercased(member.surname@),
            forename@ == lowercased(member.forename@),
            forall|k: int| 0 <= k < j ==> !joker_is_of(#[trigger] jokers@[k], *member),
    {
        if lowered_names_agree(
            lowercase(jokers[j].surname.as_str()).as_str(),
            lowercase(jokers[j].forename.as_str()).as_str(),
            surname.as_str(),
            forename.as_str(),
        ) {
            assert(joker_is_of(jokers@[j as int], *member));
            return true;
        }
    }
    false
}

/// The members who declared none of `jokers`, in their order: those who are
/// expected to pick up.
pub fn filter_jokers(members: &[Member], jokers: &[Joker]) -> (collectors: MemberList)
    ensures
        collectors@ == members@.filter(without_joker(jokers@)),
{
    let mut collectors: MemberList = Vec::new();
    proof {
        lemma_filter_empty::<Member>(without_joker(jokers@));
        assert(members@.take(0) =~= Seq::<Member>::empty());
    }
    for i in 0..members.len()
        invariant
            collectors@ == members@.take(i as int).filter(without_joker(jokers@)),
    {
        proof {
            lemma_filter_take_next(members@, i as int, without_joker(jokers@));
        }
        if !member_has_joker(&members[i], jokers) {
            collectors.push(members[i].clone());
        }
    }
    assert(members@.take(members@.len() as int) =~= members@);
    collectors
}

/// Whether another member has the surname of the member at `at`, letter for
/// letter.
pub open spec fn shares_surname(members: Seq<Member>, at: int) -> bool {
    exists|j: int|
        0 <= j < members.len() && j != at && (#[trigger] members[j]).surname@
            == members[at].surname@
}

/// Whether another member has the member number of the member at `at`.
pub open spec fn shares_member_no(members: Seq<Member>, at: int) -> bool {
    exists|j: int|
        0 <= j < members.len() && j != at && (#[trigger] members[j]).member_no
            == members[at].member_no
}

/// Whether another member has the contract number of the member at `at`,
/// letter for letter.
pub open spec fn shares_contract_no(members: Seq<Member>, at: int) -> bool {
    exists|j: int|
        0 <= j < members.len() && j != at && (#[trigger] members[j]).contract_no@
            == members[at].contract_no@
}

/// The places `0` to `n - 1`, in order.
pub open spec fn places(n: nat) -> Seq<usize> {
    Seq::new(n, |i: int| i as usize)
}

/// The places of the members who share their surname with another.
pub open spec fn with_shared_surname(members: Seq<Member>) -> spec_fn(usize) -> bool {
    |at: usize| shares_surname(members, at as int)
}

/// The places of the members who share their member number with another.
pub open spec fn with_shared_member_no(members: Seq<Member>) -> spec_fn(usize) -> bool {
    |at: usize| shares_member_no(members, at as int)
}

/// The places of the members who share their contract number with another.
pub open spec fn with_shared_contract_no(members: Seq<Member>) -> spec_fn(usize) -> bool {
    |at: usize| shares_contract_no(members, at as int)
}

/// The members whose keys are not their own: for each of the three keys, the
/// places in the list of those who share it with another member, in
/// increasing order.
#[derive(Debug)]
pub struct Duplicates {
    pub surname: Vec<usize>,
    pub member_no: Vec<usize>,
    pub contract_no: Vec<usize>,
}

fn surname_is_shared(members: &Vec<Member>, at: usize) -> (shared: bool)
    requires
        at < members@.len(),
    ensures
        shared == shares_surname(members@, at as int),
{
    for j in 0..members.len()
        invariant
            at < members@.len(),
            forall|k: int|
                0 <= k < j && k != at ==> (#[trigger] members@[k]).surname@
                    != members@[at as int].surname@,
    {
        if j != at && members[j].surname == members[at].surname {
            return true;
        }
    }
    false
}

fn member_no_is_shared(members: &Vec<Member>, at: usize) -> (shared: bool)
    requires
        at < members@.len(),
    ensures
        shared == shares_member_no(members@, at as int),
{
    for j in 0..members.len()
        invariant
            at < members@.len(),
            forall|k: int|
                0 <= k < j && k != at ==> (#[trigger] members@[k]).member_no
                    != members@[at as int].member_no,
    {
        if j != at && members[j].member_no == members[at].member_no {
            return true;
        }
    }
    false
}

fn contract_no_is_shared(members: &Vec<Member>, at: usize) -> (shared: bool)
    requires
        at < members@.len(),
    ensures
        shared == shares_contract_no(members@, at as int),
{
    for j in 0..members.len()
        invariant
            at < members@.len(),
            forall|k: int|
                0 <= k < j && k != at ==> (#[trigger] members@[k]).contract_no@
                    != members@[at as int].contract_no@,
    {
        if j != at && members[j].contract_no == members[at].contract_no {
            return true;
        }
    }
    false
}

/// Looks for members who share a key with another member. The list is gone
/// through three times: by surname, by member number and by contract number.
/// Surnames and contract numbers are the same only if they agree letter for
/// letter. Every member of a collision is flagged, and none is removed.
pub fn check_member_list(members: &Vec<Member>) -> (found: Duplicates)
    ensures
        found.surname@ == places(members@.len()).filter(with_shared_surname(members@)),
        found.member_no@ == places(members@.len()).filter(with_shared_member_no(members@)),
        found.contract_no@ == places(members@.len()).filter(with_shared_contract_no(members@)),
{
    let ghost all = places(members@.len());
    let mut surname: Vec<usize> = Vec::new();
    let mut member_no: Vec<usize> = Vec::new();
    let mut contract_no: Vec<usize> = Vec::new();
    proof {
        lemma_filter_empty::<usize>(with_shared_surname(members@));
        lemma_filter_empty::<usize>(with_shared_member_no(members@));
        lemma_filter_empty::<usize>(with_shared_contract_no(members@));
        assert(all.take(0) =~= Seq::<usize>::empty());
    }
    for i in 0..members.len()
        invariant
            all == places(members@.len()),
            surname@ == all.take(i as int).filter(with_shared_surname(members@)),
    {
        proof {
            lemma_filter_take_next(all, i as int, with_shared_surname(members@));
        }
        if surname_is_shared(members, i) {
            surname.push(i);
        }
    }
    for i in 0..members.len()
        invariant
            all == places(members@.len()),
            member_no@ == all.take(i as int).filter(with_shared_member_no(members@)),
    {
        proof {
            lemma_filter_take_next(all, i as int, with_shared_member_no(members@));
        }
        if member_no_is_shared(members, i) {
            member_no.push(i);
        }
    }
    for i in 0..members.len()
        invariant
            all == places(members@.len()),
            contract_no@ == all.take(i as int).filter(with_shared_contract_no(members@)),
    {
        proof {
            lemma_filter_take_next(all, i as int, with_shared_contract_no(members@));
        }
        if contract_no_is_shared(members, i) {
            contract_no.push(i);
        }
    }
    assert(all.take(all.len() as int) =~= all);
    Duplicates { surname, member_no, contract_no }
}

/// A member is flagged in the pass over a key exactly if it shares that key
/// with another member: two members of the same surname are both flagged for
/// it, and a member whose surname is its own is not, whatever other key it
/// shares.
pub proof fn lemma_flagged_members(members: Seq<Member>, at: int)
    requires
        0 <= at < members.len(),
        members.len() <= usize::MAX,
    ensures
        places(members.len()).filter(with_shared_surname(members)).contains(at as usize)
            == shares_surname(members, at),
        places(members.len()).filter(with_shared_member_no(members)).contains(at as usize)
            == shares_member_no(members, at),
        places(members.len()).filter(with_shared_contract_no(members)).contains(at as usize)
            == shares_contract_no(members, at),
{
    let all = places(members.len());
    assert(all[at] == at as usize);
    lemma_filter_holds(all, with_shared_surname(members), at as usize);
    lemma_filter_holds(all, with_shared_member_no(members), at as usize);
    lemma_filter_holds(all, with_shared_contract_no(members), at as usize);
}

/// The rows at the head of the roster that hold no member.
pub const ROSTER_HEADER_ROWS: usize = 1;

/// The most rows of the roster that are read.
pub const ROSTER_MAX_ROWS: usize = 251;

/// The column of the contract number in the roster.
pub const CONTRACT_NO_COLUMN: usize = 0;

/// The column of the member number in the roster.
pub const MEMBER_NO_COLUMN: usize = 1;

/// The column of the surname in the roster.
pub const SURNAME_COLUMN: usize = 2;

/// The column of the forename in the roster.
pub const FORENAME_COLUMN: usize = 3;

/// The column of the big shares in the roster.
pub const BIG_COLUMN: usize = 5;

/// The column of the small shares in the roster.
pub const SMALL_COLUMN: usize = 6;

/// The column of the location in the roster.
pub const LOCATION_COLUMN: usize = 15;

/// The column of the activity flag in the roster.
pub const ACTIVE_COLUMN: usize = 19;

/// A row of the roster could not be read.
#[derive(Clone, Copy, Debug, PartialEq, Eq, Structural)]
pub struct RosterError {
    /// The number of the row in the worksheet, counted from 1.
    pub row: u32,
    pub cause: MemberError,
}

impl RosterError {
    /// The cause and the row as a text.
    pub open spec fn spec_message(self) -> Seq<char> {
        self.cause.spec_message() + " on line "@ + decimal_digits(self.row as nat)
    }

    /// The cause and the row, for the operator.
    pub fn message(&self) -> (out: String)
        ensures
            out@ == self.spec_message(),
    {
        let mut out = String::from_str(self.cause.message());
        out.append(" on line ");
        out.append(decimal_text(self.row).as_str());
        out
    }
}

/// The cells of a roster row that a member is read from, each in its
/// column.
pub open spec fn member_cells(row: Seq<Cell>) -> MemberCells {
    MemberCells {
        contract_no: cell_at(row, CONTRACT_NO_COLUMN as int),
        member_no: cell_at(row, MEMBER_NO_COLUMN as int),
        surname: cell_at(row, SURNAME_COLUMN as int),
        forename: cell_at(row, FORENAME_COLUMN as int),
        big: cell_at(row, BIG_COLUMN as int),
        small: cell_at(row, SMALL_COLUMN as int),
        location: cell_at(row, LOCATION_COLUMN as int),
        active: cell_at(row, ACTIVE_COLUMN as int),
    }
}

/// Whether a row of the roster holds a member: none of its first three
/// cells is empty.
pub open spec fn holds_member(row: Seq<Cell>) -> bool {
    &&& cell_at(row, 0).kind != CellKind::Empty
    &&& cell_at(row, 1).kind != CellKind::Empty
    &&& cell_at(row, 2).kind != CellKind::Empty
}

/// The number of rows of the roster that are read.
pub open spec fn roster_len(sheet: Seq<Vec<Cell>>) -> nat {
    if sheet.len() <= ROSTER_HEADER_ROWS {
        0
    } else if sheet.len() - ROSTER_HEADER_ROWS <= ROSTER_MAX_ROWS {
        (sheet.len() - ROSTER_HEADER_ROWS) as nat
    } else {
        ROSTER_MAX_ROWS as nat
    }
}

/// The rows of the roster that hold a member.
pub open spec fn with_member(sheet: Seq<Vec<Cell>>) -> spec_fn(usize) -> bool {
    |at: usize| 0 <= at < sheet.len() && holds_member(sheet[at as int]@)
}

/// The places in the worksheet of the rows that a member is read from, in
/// order: the rows after the header, `ROSTER_MAX_ROWS` at most, that hold a
/// member.
pub open spec fn member_rows(sheet: Seq<Vec<Cell>>) -> Seq<usize> {
    Seq::new(roster_len(sheet), |i: int| (i + ROSTER_HEADER_ROWS) as usize).filter(
        with_member(sheet),
    )
}

/// Whether the roster is read as `read`: as the members of its rows, if all
/// of them can be read, and else as the failure of the first row that
/// cannot.
pub open spec fn is_roster_of(
    read: Result<MemberList, RosterError>,
    sheet: Seq<Vec<Cell>>,
) -> bool {
    let rows = member_rows(sheet);
    match read {
        Ok(members) => {
            &&& members@.len() == rows.len()
            &&& forall|i: int|
                0 <= i < rows.len() ==> is_read_as(
                    Ok(#[trigger] members@[i]),
                    member_cells(sheet[rows[i] as int]@),
                )
        },
        Err(error) => exists|k: int|
            {
                &&& 0 <= k < rows.len()
                &&& error.row == #[trigger] rows[k] + 1
                &&& member_error(member_cells(sheet[rows[k] as int]@)) == Some(error.cause)
                &&& forall|i: int|
                    0 <= i < k ==> member_error(
                        member_cells(sheet[(#[trigger] rows[i]) as int]@),
                    ).is_none()
            },
    }
}

fn row_holds_member(row: &Vec<Cell>, blank: &Cell) -> (holds: bool)
    requires
        blank@ == empty_cell(),
    ensures
        holds == holds_member(row@),
{
    !Cell::of_row(row, 0, blank).is_empty() && !Cell::of_row(row, 1, blank).is_empty()
        && !Cell::of_row(row, 2, blank).is_empty()
}

/// Reads the members off the rows of the roster: one from each row after the
/// header whose first three cells are not empty. The first row that cannot
/// be read ends the reading with its error.
pub fn members_from_rows(sheet: &Vec<Vec<Cell>>) -> (read: Result<MemberList, RosterError>)
    ensures
        is_roster_of(read, sheet@),
{
    let ghost all = Seq::new(roster_len(sheet@), |i: int| (i + ROSTER_HEADER_ROWS) as usize);
    let ghost pred = with_member(sheet@);
    let mut members: MemberList = Vec::new();
    let blank = Cell::blank();
    let count: usize = if sheet.len() <= ROSTER_HEADER_ROWS {
        0
    } else if sheet.len() - ROSTER_HEADER_ROWS <= ROSTER_MAX_ROWS {
        sheet.len() - ROSTER_HEADER_ROWS
    } else {
        ROSTER_MAX_ROWS
    };
    proof {
        lemma_filter_empty::<usize>(pred);
        assert(all.take(0) =~= Seq::<usize>::empty());
    }
    for i in 0..count
        invariant
            count == roster_len(sheet@),
            all == Seq::new(roster_len(sheet@), |i: int| (i + ROSTER_HEADER_ROWS) as usize),
            pred == with_member(sheet@),
            blank@ == empty_cell(),
            members@.len() == all.take(i as int).filter(pred).len(),
            forall|k: int|
                0 <= k < members@.len() ==> is_read_as(
                    Ok(#[trigger] members@[k]),
                    member_cells(sheet@[all.take(i as int).filter(pred)[k] as int]@),
                ),
    {
        let at = i + ROSTER_HEADER_ROWS;
        let ghost before = all.take(i as int).filter(pred);
        proof {
            lemma_filter_take_next(all, i as int, pred);
            assert(all[i as int] == at);
        }
        let row = &sheet[at];
        if row_holds_member(row, &blank) {
            let made = Member::new(
                Cell::of_row(row, CONTRACT_NO_COLUMN, &blank),
                Cell::of_row(row, MEMBER_NO_COLUMN, &blank),
                Cell::of_row(row, SURNAME_COLUMN, &blank),
                Cell::of_row(row, FORENAME_COLUMN, &blank),
                Cell::of_row(row, BIG_COLUMN, &blank),
                Cell::of_row(row, SMALL_COLUMN, &blank),
                Cell::of_row(row, LOCATION_COLUMN, &blank),
                Cell::of_row(row, ACTIVE_COLUMN, &blank),
            );
            match made {
                Ok(member) => {
                    members.push(member);
                },
                Err(cause) => {
                    proof {
                        let rows = member_rows(sheet@);
                        let k = before.len() as int;
                        lemma_filter_prefix(all, i + 1, pred);
                        assert(rows[k] == at);
                        assert forall|j: int| 0 <= j < k implies member_error(
                            member_cells(sheet@[(#[trigger] rows[j]) as int]@),
                        ).is_none() by {
                            assert(rows[j] == before[j]);
                            assert(is_read_as(
                                Ok(members@[j]),
                                member_cells(sheet@[before[j] as int]@),
                            ));
                        }
                    }
                    return Err(RosterError { row: (at + 1) as u32, cause });
                },
            }
        }
    }
    proof {
        assert(all.take(count as int) =~= all);
    }
    Ok(members)
}

} // verus!
