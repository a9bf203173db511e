//! The reconciliation engine: holds the members expected at a location
//! against the entries of its tally sheet, in both directions, and counts
//! what does not agree.

use crate::member::{Member, MemberList};
use crate::names::{check_name_equality, check_name_with_initial, is_well_formed_name, names_equal};
use crate::seqs::{
    lemma_contains_push, lemma_count_of_distinct, lemma_filter_all, lemma_filter_empty,
    lemma_filter_none, lemma_filter_one_more, lemma_filter_same, lemma_filter_take_next,
};
use crate::tickoff::{entries, Entry, TickOffItem, TickOffList};
use vstd::prelude::*;
use vstd::seq_lib::seq_to_set_is_finite;
use vstd::set::group_set_axioms;

verus! {

/// Whether a tally entry denotes a member.
pub open spec fn denotes(item: TickOffItem, member: Member) -> bool {
    names_equal(member.surname@, member.forename@, item.name@)
}

/// Whether some entry of the tally denotes the member.
pub open spec fn is_ticked_off(member: Member, tickoff: Seq<TickOffItem>) -> bool {
    exists|j: int| 0 <= j < tickoff.len() && denotes(#[trigger] tickoff[j], member)
}

/// The members whom no entry of the tally denotes.
pub open spec fn not_ticked_off(tickoff: Seq<TickOffItem>) -> spec_fn(Member) -> bool {
    |m: Member| !is_ticked_off(m, tickoff)
}

/// The entries whose name is malformed.
pub open spec fn is_malformed() -> spec_fn(Entry) -> bool {
    |e: Entry| !is_well_formed_name(e.0)
}

/// The distinct malformed entries of a tally.
pub open spec fn malformed_entries(tickoff: Seq<TickOffItem>) -> Set<Entry> {
    entries(tickoff).to_set().filter(is_malformed())
}

/// The warnings that the members give rise to, held against a tally: each
/// member who is not ticked off is one, and each distinct malformed entry is
/// one for every member it was held against.
pub open spec fn member_warnings(members: Seq<Member>, tickoff: Seq<TickOffItem>) -> nat {
    members.len() * malformed_entries(tickoff).len() + members.filter(
        not_ticked_off(tickoff),
    ).len()
}

/// The first of the members whom the entry denotes.
pub open spec fn first_denoted(members: Seq<Member>, item: TickOffItem) -> Option<Member>
    decreases members.len(),
{
    if members.len() == 0 {
        None
    } else if denotes(item, members.first()) {
        Some(members.first())
    } else {
        first_denoted(members.drop_first(), item)
    }
}

/// In how many of the two quantities an entry differs from a member's
/// entitlement.
pub open spec fn quantity_mismatches(member: Member, item: TickOffItem) -> nat {
    (if member.big != item.big {
        1nat
    } else {
        0nat
    }) + (if member.small != item.small {
        1nat
    } else {
        0nat
    })
}

/// The warnings that one tally entry gives rise to, held against the
/// members: one if it denotes none of them, which is so if its name is
/// malformed, and else one for each quantity in which it differs from the
/// first member it denotes.
pub open spec fn entry_warnings(members: Seq<Member>, item: TickOffItem) -> nat {
    match first_denoted(members, item) {
        None => 1,
        Some(member) => quantity_mismatches(member, item),
    }
}

/// The warnings that the entries of a tally give rise to, held against the
/// members.
pub open spec fn tally_warnings(members: Seq<Member>, tickoff: Seq<TickOffItem>) -> nat
    decreases tickoff.len(),
{
    if tickoff.len() == 0 {
        0
    } else {
        tally_warnings(members, tickoff.drop_last()) + entry_warnings(members, tickoff.last())
    }
}

/// Every member has a forename.
pub open spec fn have_forenames(members: Seq<Member>) -> bool {
    forall|i: int| 0 <= i < members.len() ==> (#[trigger] members[i]).forename@.len() > 0
}

/// A count of warnings as the checks return it: none where there is nothing
/// to report.
pub open spec fn as_warnings(count: nat) -> Option<usize> {
    if count == 0 {
        None
    } else {
        Some(count as usize)
    }
}

/// Whether a member is ticked off depends on the set of entries only.
proof fn lemma_ticked_off_by_entries(
    member: Member,
    tickoff: Seq<TickOffItem>,
    other: Seq<TickOffItem>,
)
    requires
        entries(tickoff).to_set() == entries(other).to_set(),
    ensures
        is_ticked_off(member, tickoff) == is_ticked_off(member, other),
{
    lemma_ticked_off_one_way(member, tickoff, other);
    lemma_ticked_off_one_way(member, other, tickoff);
}

proof fn lemma_ticked_off_one_way(
    member: Member,
    tickoff: Seq<TickOffItem>,
    other: Seq<TickOffItem>,
)
    requires
        entries(tickoff).to_set() == entries(other).to_set(),
    ensures
        is_ticked_off(member, tickoff) ==> is_ticked_off(member, other),
{
    if is_ticked_off(member, tickoff) {
        let j = choose|j: int| 0 <= j < tickoff.len() && denotes(#[trigger] tickoff[j], member);
        assert(entries(tickoff)[j] == tickoff[j]@);
        assert(entries(tickoff).to_set().contains(tickoff[j]@));
        assert(entries(other).contains(tickoff[j]@));
        let k = choose|k: int| 0 <= k < other.len() && entries(other)[k] == tickoff[j]@;
        assert(denotes(other[k], member));
    }
}

fn holds_entry(list: &TickOffList, item: &TickOffItem) -> (held: bool)
    ensures
        held == entries(list@).contains(item@),
{
    for i in 0..list.len()
        invariant
            forall|k: int| 0 <= k < i ==> entries(list@)[k] != item@,
    {
        if list[i].same_as(item) {
            assert(entries(list@)[i as int] == item@);
            return true;
        }
    }
    false
}

/// A list of entries without its repetitions: of the entries that are the
/// same triple of name, big and small, the first stays.
pub open spec fn without_repeats(all: Seq<Entry>) -> Seq<Entry>
    decreases all.len(),
{
    if all.len() == 0 {
        all
    } else {
        let before = without_repeats(all.drop_last());
        if before.contains(all.last()) {
            before
        } else {
            before.push(all.last())
        }
    }
}

/// A list without its repetitions holds every entry of the list, and each
/// once.
pub proof fn lemma_without_repeats(all: Seq<Entry>)
    ensures
        without_repeats(all).no_duplicates(),
        without_repeats(all).to_set() == all.to_set(),
        without_repeats(all).len() <= all.len(),
    decreases all.len(),
{
    if all.len() == 0 {
        assert(without_repeats(all).to_set() =~= all.to_set());
    } else {
        let rest = all.drop_last();
        let last = all.last();
        let before = without_repeats(rest);
        lemma_without_repeats(rest);
        assert(rest.push(last) =~= all);
        assert(without_repeats(all).to_set() =~= all.to_set()) by {
            assert forall|e: Entry|
                without_repeats(all).to_set().contains(e) <==> all.to_set().contains(e) by {
                lemma_contains_push(before, last, e);
                lemma_contains_push(rest, last, e);
                assert(before.to_set().contains(e) == rest.to_set().contains(e));
            }
        }
    }
}

/// The entries of a tally without repetition: of the entries that are the
/// same triple of name, big and small, the first stays.
pub fn distinct_entries(tickoff: &TickOffList) -> (distinct: TickOffList)
    ensures
        entries(distinct@) == without_repeats(entries(tickoff@)),
{
    let mut distinct: TickOffList = Vec::new();
    assert(entries(distinct@) =~= without_repeats(entries(tickoff@.take(0))));
    for i in 0..tickoff.len()
        invariant
            entries(distinct@) == without_repeats(entries(tickoff@.take(i as int))),
    {
        let ghost before = entries(distinct@);
        let ghost seen = entries(tickoff@.take(i as int));
        let ghost entry = tickoff@[i as int]@;
        proof {
            let next = entries(tickoff@.take(i + 1));
            assert(next.drop_last() =~= seen);
            assert(next.last() == entry);
        }
        if !holds_entry(&distinct, &tickoff[i]) {
            distinct.push(tickoff[i].clone());
            assert(entries(distinct@) =~= before.push(entry));
        }
    }
    assert(tickoff@.take(tickoff@.len() as int) =~= tickoff@);
    distinct
}

/// Holds one member against the distinct entries of a tally: whether an
/// entry denotes the member, and how many entries are malformed.
fn scan_entries(member: &Member, distinct: &TickOffList) -> (found: (bool, usize))
    requires
        member.forename@.len() > 0,
    ensures
        found.0 == is_ticked_off(*member, distinct@),
        found.1 == entries(distinct@).filter(is_malformed()).len(),
        found.1 <= distinct@.len(),
{
    let mut ticked = false;
    let mut malformed: usize = 0;
    proof {
        lemma_filter_empty::<Entry>(is_malformed());
        assert(entries(distinct@).take(0) =~= Seq::<Entry>::empty());
    }
    for j in 0..distinct.len()
        invariant
            member.forename@.len() > 0,
            ticked == exists|k: int| 0 <= k < j && denotes(#[trigger] distinct@[k], *member),
            malformed == entries(distinct@).take(j as int).filter(is_malformed()).len(),
            malformed <= j,
    {
        proof {
            lemma_filter_take_next(entries(distinct@), j as int, is_malformed());
        }
        let tick = &distinct[j];
        if !check_name_with_initial(tick.name.as_str()) {
            malformed += 1;
        } else if check_name_equality(
            member.surname.as_str(),
            member.forename.as_str(),
            tick.name.as_str(),
        ) {
            ticked = true;
        }
    }
    assert(entries(distinct@).take(distinct@.len() as int) =~= entries(distinct@));
    (ticked, malformed)
}

/// Checks that every member is on the tally. A member whom no entry denotes
/// is a warning: an exemption that was not declared, or an error in the
/// data. Every distinct malformed entry is a warning too, once for each
/// member it is held against.
///
/// Returns the number of warnings, and `None` where there is none.
pub fn check_for_members_in_tickoff_list(members: &MemberList, tickoff: &TickOffList) -> (warnings:
    Option<usize>)
    requires
        have_forenames(members@),
        members@.len() * (tickoff@.len() + 1) <= usize::MAX,
    ensures
        warnings == as_warnings(member_warnings(members@, tickoff@)),
{
    let distinct = distinct_entries(tickoff);
    let ghost per_member = malformed_entries(tickoff@).len();
    proof {
        lemma_without_repeats(entries(tickoff@));
        lemma_count_of_distinct(entries(distinct@), is_malformed());
        entries(distinct@).lemma_filter_len(is_malformed());
        lemma_filter_empty::<Member>(not_ticked_off(tickoff@));
        assert(members@.take(0) =~= Seq::<Member>::empty());
        assert(per_member <= tickoff@.len());
        assert(0 * per_member == 0);
        assert(0 * (tickoff@.len() + 1) == 0);
    }
    let mut count: usize = 0;
    for i in 0..members.len()
        invariant
            have_forenames(members@),
            members@.len() * (tickoff@.len() + 1) <= usize::MAX,
            entries(distinct@).to_set() == entries(tickoff@).to_set(),
            per_member == malformed_entries(tickoff@).len(),
            per_member == entries(distinct@).filter(is_malformed()).len(),
            per_member <= tickoff@.len(),
            count == i * per_member + members@.take(i as int).filter(
                not_ticked_off(tickoff@),
            ).len(),
            count <= i * (tickoff@.len() + 1),
    {
        let found = scan_entries(&members[i], &distinct);
        proof {
            lemma_ticked_off_by_entries(members@[i as int], distinct@, tickoff@);
            lemma_filter_take_next(members@, i as int, not_ticked_off(tickoff@));
            assert((i + 1) * per_member == i * per_member + per_member) by (nonlinear_arith);
            assert((i + 1) * (tickoff@.len() + 1) == i * (tickoff@.len() + 1) + tickoff@.len() + 1)
                by (nonlinear_arith);
            assert((i + 1) * (tickoff@.len() + 1) <= members@.len() * (tickoff@.len() + 1))
                by (nonlinear_arith)
                requires
                    i + 1 <= members@.len(),
            ;
        }
        count = count + found.1;
        if !found.0 {
            count = count + 1;
        }
    }
    assert(members@.take(members@.len() as int) =~= members@);
    if count == 0 {
        None
    } else {
        Some(count)
    }
}

/// Whether some entry of the tally denotes the member.
pub fn member_is_ticked_off(member: &Member, tickoff: &TickOffList) -> (ticked: bool)
    requires
        member.forename@.len() > 0,
    ensures
        ticked == is_ticked_off(*member, tickoff@),
{
    for j in 0..tickoff.len()
        invariant
            member.forename@.len() > 0,
            forall|k: int| 0 <= k < j ==> !denotes(#[trigger] tickoff@[k], *member),
    {
        if check_name_equality(
            member.surname.as_str(),
            member.forename.as_str(),
            tickoff[j].name.as_str(),
        ) {
            return true;
        }
    }
    false
}

/// The first member whom the entry denotes.
pub fn find_denoted<'a>(members: &'a MemberList, tick: &TickOffItem) -> (found: Option<&'a Member>)
    requires
        have_forenames(members@),
    ensures
        match found {
            Some(member) => first_denoted(members@, *tick) == Some(*member),
            None => first_denoted(members@, *tick).is_none(),
        },
{
    if !check_name_with_initial(tick.name.as_str()) {
        proof {
            lemma_malformed_denotes_nobody(members@, *tick);
        }
        return None;
    }
    assert(members@.skip(0) =~= members@);
    for i in 0..members.len()
        invariant
            have_forenames(members@),
            first_denoted(members@, *tick) == first_denoted(members@.skip(i as int), *tick),
    {
        let ghost rest = members@.skip(i as int);
        assert(rest.first() == members@[i as int]);
        assert(rest.drop_first() =~= members@.skip(i + 1));
        if check_name_equality(
            members[i].surname.as_str(),
            members[i].forename.as_str(),
            tick.name.as_str(),
        ) {
            return Some(&members[i]);
        }
    }
    None
}

/// An entry with a malformed name denotes none of the members.
pub proof fn lemma_malformed_denotes_nobody(members: Seq<Member>, item: TickOffItem)
    requires
        !is_well_formed_name(item.name@),
    ensures
        first_denoted(members, item).is_none(),
        entry_warnings(members, item) == 1,
    decreases members.len(),
{
    if members.len() > 0 {
        lemma_malformed_denotes_nobody(members.drop_first(), item);
    }
}

/// Checks that every entry of the tally denotes a member who is entitled to
/// what the entry records. An entry that denotes no member is a warning; so
/// is each of the two quantities in which an entry differs from the first
/// member it denotes.
///
/// Returns the number of warnings, and `None` where there is none.
pub fn check_tickoff_list_against_members(members: &MemberList, tickoff: &TickOffList) -> (warnings:
    Option<usize>)
    requires
        have_forenames(members@),
        2 * tickoff@.len() <= usize::MAX,
    ensures
        warnings == as_warnings(tally_warnings(members@, tickoff@)),
{
    let mut count: usize = 0;
    assert(tickoff@.take(0) =~= Seq::<TickOffItem>::empty());
    for j in 0..tickoff.len()
        invariant
            have_forenames(members@),
            2 * tickoff@.len() <= usize::MAX,
            count == tally_warnings(members@, tickoff@.take(j as int)),
            count <= 2 * j,
    {
        proof {
            let next = tickoff@.take(j + 1);
            assert(next.drop_last() =~= tickoff@.take(j as int));
            assert(next.last() == tickoff@[j as int]);
        }
        let tick = &tickoff[j];
        match find_denoted(members, tick) {
            None => {
                count = count + 1;
            },
            Some(member) => {
                if member.big != tick.big {
                    count = count + 1;
                }
                if member.small != tick.small {
                    count = count + 1;
                }
            },
        }
    }
    assert(tickoff@.take(tickoff@.len() as int) =~= tickoff@);
    if count == 0 {
        None
    } else {
        Some(count)
    }
}

/// The check of the members depends on the tally only through the set of its
/// entries: neither the order of the entries nor their repetition changes
/// the count.
pub proof fn lemma_member_warnings_by_entries(
    members: Seq<Member>,
    tickoff: Seq<TickOffItem>,
    other: Seq<TickOffItem>,
)
    requires
        entries(tickoff).to_set() == entries(other).to_set(),
    ensures
        member_warnings(members, tickoff) == member_warnings(members, other),
{
    assert forall|i: int| 0 <= i < members.len() implies not_ticked_off(tickoff)(
        #[trigger] members[i],
    ) == not_ticked_off(other)(members[i]) by {
        lemma_ticked_off_by_entries(members[i], tickoff, other);
    }
    lemma_filter_same(members, not_ticked_off(tickoff), not_ticked_off(other));
}

/// Where every entry of the tally is well formed and every member is ticked
/// off, the check of the members has nothing to report.
pub proof fn lemma_all_ticked_off_gives_no_warning(
    members: Seq<Member>,
    tickoff: Seq<TickOffItem>,
)
    requires
        forall|j: int|
            0 <= j < tickoff.len() ==> is_well_formed_name((#[trigger] tickoff[j]).name@),
        forall|i: int| 0 <= i < members.len() ==> is_ticked_off(#[trigger] members[i], tickoff),
    ensures
        member_warnings(members, tickoff) == 0,
        as_warnings(member_warnings(members, tickoff)).is_none(),
{
    broadcast use group_set_axioms;

    assert(malformed_entries(tickoff) =~= Set::<Entry>::empty()) by {
        assert forall|e: Entry| !malformed_entries(tickoff).contains(e) by {
            if entries(tickoff).contains(e) {
                let j = choose|j: int| 0 <= j < tickoff.len() && entries(tickoff)[j] == e;
                assert(is_well_formed_name(tickoff[j].name@));
            }
        }
    }
    lemma_filter_none(members, not_ticked_off(tickoff));
    assert(members.len() * 0 == 0);
}

/// Against an empty tally every member is a warning: the count is the number
/// of members.
pub proof fn lemma_empty_tally_warns_of_every_member(members: Seq<Member>)
    ensures
        member_warnings(members, Seq::<TickOffItem>::empty()) == members.len(),
{
    broadcast use group_set_axioms;

    let tickoff = Seq::<TickOffItem>::empty();
    assert(malformed_entries(tickoff) =~= Set::<Entry>::empty());
    lemma_filter_all(members, not_ticked_off(tickoff));
    assert(members.len() * 0 == 0);
}

/// Taking the one entry that denotes a member off the tally adds exactly one
/// warning to the check of the members, where every other member whom that
/// entry denotes is denoted by another entry as well.
pub proof fn lemma_removing_the_match_adds_one_warning(
    members: Seq<Member>,
    tickoff: Seq<TickOffItem>,
    member: int,
    entry: int,
)
    requires
        0 <= member < members.len(),
        0 <= entry < tickoff.len(),
        denotes(tickoff[entry], members[member]),
        forall|j: int|
            0 <= j < tickoff.len() && j != entry ==> !denotes(
                #[trigger] tickoff[j],
                members[member],
            ),
        forall|i: int|
            0 <= i < members.len() && i != member && denotes(tickoff[entry], #[trigger] members[i])
                ==> exists|j: int|
                0 <= j < tickoff.len() && j != entry && denotes(#[trigger] tickoff[j], members[i]),
    ensures
        member_warnings(members, tickoff.remove(entry)) == member_warnings(members, tickoff) + 1,
{
    broadcast use group_set_axioms;

    let fewer = tickoff.remove(entry);
    assert(is_well_formed_name(tickoff[entry].name@));
    assert(malformed_entries(fewer) =~= malformed_entries(tickoff)) by {
        assert forall|e: Entry|
            malformed_entries(fewer).contains(e) <==> malformed_entries(tickoff).contains(e) by {
            if malformed_entries(fewer).contains(e) {
                let j = choose|j: int| 0 <= j < fewer.len() && entries(fewer)[j] == e;
                let k = if j < entry {
                    j
                } else {
                    j + 1
                };
                assert(entries(tickoff)[k] == e);
            }
            if malformed_entries(tickoff).contains(e) {
                let k = choose|k: int| 0 <= k < tickoff.len() && entries(tickoff)[k] == e;
                assert(k != entry);
                let j = if k < entry {
                    k
                } else {
                    k - 1
                };
                assert(entries(fewer)[j] == e);
            }
        }
    }
    assert(!is_ticked_off(members[member], fewer)) by {
        if is_ticked_off(members[member], fewer) {
            let j = choose|j: int|
                0 <= j < fewer.len() && denotes(#[trigger] fewer[j], members[member]);
            let k = if j < entry {
                j
            } else {
                j + 1
            };
            assert(fewer[j] == tickoff[k]);
        }
    }
    assert forall|i: int| 0 <= i < members.len() && i != member implies not_ticked_off(tickoff)(
        #[trigger] members[i],
    ) == not_ticked_off(fewer)(members[i]) by {
        if is_ticked_off(members[i], fewer) {
            let j = choose|j: int| 0 <= j < fewer.len() && denotes(#[trigger] fewer[j], members[i]);
            let k = if j < entry {
                j
            } else {
                j + 1
            };
            assert(fewer[j] == tickoff[k]);
        }
        if is_ticked_off(members[i], tickoff) {
            let k = choose|k: int|
                0 <= k < tickoff.len() && denotes(#[trigger] tickoff[k], members[i]);
            let other = if k != entry {
                k
            } else {
                choose|j: int|
                    0 <= j < tickoff.len() && j != entry && denotes(
                        #[trigger] tickoff[j],
                        members[i],
                    )
            };
            let j = if other < entry {
                other
            } else {
                other - 1
            };
            assert(fewer[j] == tickoff[other]);
        }
    }
    lemma_filter_one_more(members, member, not_ticked_off(tickoff), not_ticked_off(fewer));
}

/// The warnings of a tally are at least those of each of its entries.
proof fn lemma_tally_warnings_hold_each(members: Seq<Member>, tickoff: Seq<TickOffItem>, at: int)
    requires
        0 <= at < tickoff.len(),
    ensures
        tally_warnings(members, tickoff) >= entry_warnings(members, tickoff[at]),
    decreases tickoff.len(),
{
    if at < tickoff.len() - 1 {
        lemma_tally_warnings_hold_each(members, tickoff.drop_last(), at);
    }
}

/// An entry with a malformed name denotes no member and is a warning in both
/// checks: one in the check of the tally, whatever the members are, and one
/// for each member in the check of the members.
pub proof fn lemma_malformed_entry_is_a_warning(
    members: Seq<Member>,
    tickoff: Seq<TickOffItem>,
    entry: int,
)
    requires
        0 <= entry < tickoff.len(),
        !is_well_formed_name(tickoff[entry].name@),
    ensures
        forall|member: Member| !denotes(tickoff[entry], member),
        entry_warnings(members, tickoff[entry]) == 1,
        tally_warnings(members, tickoff) >= 1,
        member_warnings(members, tickoff) >= members.len(),
{
    broadcast use {group_set_axioms, seq_to_set_is_finite};

    lemma_malformed_denotes_nobody(members, tickoff[entry]);
    lemma_tally_warnings_hold_each(members, tickoff, entry);
    let malformed = malformed_entries(tickoff);
    assert(entries(tickoff)[entry] == tickoff[entry]@);
    assert(malformed.contains(tickoff[entry]@));
    assert(malformed.finite());
    assert(malformed.len() >= 1);
    assert(members.len() * malformed.len() >= members.len()) by (nonlinear_arith)
        requires
            malformed.len() >= 1,
    ;
}

/// Whom an entry denotes depends on its name alone.
proof fn lemma_first_denoted_by_name(members: Seq<Member>, item: TickOffItem, other: TickOffItem)
    requires
        item.name@ == other.name@,
    ensures
        first_denoted(members, item) == first_denoted(members, other),
    decreases members.len(),
{
    if members.len() > 0 {
        lemma_first_denoted_by_name(members.drop_first(), item, other);
    }
}

/// Putting another entry in the place of one changes the warnings of the
/// tally by the difference of the warnings of the two.
proof fn lemma_tally_warnings_update(
    members: Seq<Member>,
    tickoff: Seq<TickOffItem>,
    at: int,
    item: TickOffItem,
)
    requires
        0 <= at < tickoff.len(),
    ensures
        tally_warnings(members, tickoff.update(at, item)) + entry_warnings(members, tickoff[at])
            == tally_warnings(members, tickoff) + entry_warnings(members, item),
    decreases tickoff.len(),
{
    let changed = tickoff.update(at, item);
    if at < tickoff.len() - 1 {
        lemma_tally_warnings_update(members, tickoff.drop_last(), at, item);
        assert(changed.drop_last() =~= tickoff.drop_last().update(at, item));
    } else {
        assert(changed.drop_last() =~= tickoff.drop_last());
    }
}

/// The warnings of a tally are the sum of the warnings of its parts, so they
/// do not depend on the order in which the parts stand.
pub proof fn lemma_tally_warnings_of_parts(
    members: Seq<Member>,
    front: Seq<TickOffItem>,
    back: Seq<TickOffItem>,
)
    ensures
        tally_warnings(members, front + back) == tally_warnings(members, front) + tally_warnings(
            members,
            back,
        ),
        tally_warnings(members, front + back) == tally_warnings(members, back + front),
{
    lemma_tally_warnings_sum(members, front, back);
    lemma_tally_warnings_sum(members, back, front);
}

proof fn lemma_tally_warnings_sum(
    members: Seq<Member>,
    front: Seq<TickOffItem>,
    back: Seq<TickOffItem>,
)
    ensures
        tally_warnings(members, front + back) == tally_warnings(members, front) + tally_warnings(
            members,
            back,
        ),
    decreases back.len(),
{
    if back.len() == 0 {
        assert(front + back =~= front);
    } else {
        lemma_tally_warnings_sum(members, front, back.drop_last());
        assert((front + back).drop_last() =~= front + back.drop_last());
    }
}

/// An entry that denotes a member and records the member's entitlement is no
/// warning. Changing the quantities that it records adds one warning to the
/// check of the tally for each of the two quantities that then differs from
/// the entitlement: one where big or small differs, two where both do.
pub proof fn lemma_quantity_mismatch_adds_warnings(
    members: Seq<Member>,
    tickoff: Seq<TickOffItem>,
    entry: int,
    changed: TickOffItem,
)
    requires
        0 <= entry < tickoff.len(),
        first_denoted(members, tickoff[entry]) is Some,
        quantity_mismatches(first_denoted(members, tickoff[entry])->0, tickoff[entry]) == 0,
        changed.name@ == tickoff[entry].name@,
    ensures
        entry_warnings(members, tickoff[entry]) == 0,
        tally_warnings(members, tickoff.update(entry, changed)) == tally_warnings(members, tickoff)
            + quantity_mismatches(first_denoted(members, tickoff[entry])->0, changed),
        quantity_mismatches(first_denoted(members, tickoff[entry])->0, changed) <= 2,
{
    lemma_first_denoted_by_name(members, tickoff[entry], changed);
    lemma_tally_warnings_update(members, tickoff, entry, changed);
}

/// The warnings of either check are bounded by the sizes of the lists: a
/// member gives at most one warning more than there are entries, and an
/// entry at most two.
pub proof fn lemma_warnings_are_bounded(members: Seq<Member>, tickoff: Seq<TickOffItem>)
    ensures
        member_warnings(members, tickoff) <= members.len() * (tickoff.len() + 1),
        tally_warnings(members, tickoff) <= 2 * tickoff.len(),
    decreases tickoff.len(),
{
    broadcast use {group_set_axioms, seq_to_set_is_finite};

    if tickoff.len() > 0 {
        lemma_warnings_are_bounded(members, tickoff.drop_last());
    }
    let all = entries(tickoff).to_set();
    vstd::set_lib::lemma_len_intersect::<Entry>(all, Set::new(is_malformed()));
    entries(tickoff).lemma_cardinality_of_set();
    members.lemma_filter_len(not_ticked_off(tickoff));
    let malformed = malformed_entries(tickoff).len();
    let missing = members.filter(not_ticked_off(tickoff)).len();
    assert(members.len() * malformed + missing <= members.len() * (tickoff.len() + 1))
        by (nonlinear_arith)
        requires
            malformed <= tickoff.len(),
            missing <= members.len(),
    ;
}

} // verus!
