use somato::date::Date;
use somato::joker::{
    check_joker_list, check_joker_names, filter_jokers_by_date, filter_jokers_by_location,
    lowered_names_account, Joker,
};
use somato::location::Location;
use somato::member::{
    check_member_list, filter_active_members, filter_jokers, filter_members_by_big,
    filter_members_by_location, filter_members_by_small, lowered_names_agree, member_has_joker,
    Member,
};
use somato::reconcile::{
    check_for_members_in_tickoff_list, check_tickoff_list_against_members, distinct_entries,
    find_denoted, member_is_ticked_off,
};
use somato::somato::{analyze_jokers, analyze_location, checks_apply};
use somato::tickoff::{get_amount_big, get_amount_small, TickOffItem};

fn gen_toi_ok() -> [TickOffItem; 3] {
    let a = TickOffItem {
        name: "Testerin, A.".to_string(),
        big: 2,
        small: 0,
    };
    let b = TickOffItem {
        name: "Tester, B.".to_string(),
        big: 0,
        small: 2,
    };
    let c = TickOffItem {
        name: "Testeress, C.".to_string(),
        big: 3,
        small: 3,
    };
    [a, b, c]
}

fn gen_toi_fail() -> [TickOffItem; 4] {
    let a = TickOffItem {
        name: "Testerin, A.".to_string(),
        big: 2,
        small: 0,
    };
    let a_small = TickOffItem {
        name: "testerin, a.".to_string(),
        big: 2,
        small: 0,
    };
    let b = TickOffItem {
        name: "Tester, B.".to_string(),
        big: 0,
        small: 2,
    };
    let c = TickOffItem {
        name: "Fail".to_string(),
        big: 2,
        small: 4,
    };
    [a, a_small, b, c]
}

fn gen_members() -> [Member; 3] {
    let a = Member::new_from_values(
        "EV-1",
        1,
        "Testerin",
        "Alice",
        2,
        0,
        Location::Perouse,
        false,
    );
    let b = Member::new_from_values(
        "EV-2",
        2,
        "Tester",
        "Bob",
        0,
        2,
        Location::Perouse,
        false,
    );
    let c = Member::new_from_values(
        "EV-3",
        3,
        "Testeress",
        "Cloe",
        3,
        3,
        Location::Perouse,
        false,
    );
    [a, b, c]
}

fn gen_joker_a() -> Joker {
    Joker {
        date: Date::from_ymd_opt(1, 1, 1).unwrap(),
        surname: "Testerin".to_string(),
        forename: "Alice".to_string(),
        warning: 0,
        location: Location::Perouse,
        big: 2,
        small: 0,
        line: 88,
    }
}

fn gen_joker_b() -> Joker {
    Joker {
        date: Date::from_ymd_opt(1, 1, 1).unwrap(),
        surname: "Tester".to_string(),
        forename: "Bob".to_string(),
        warning: 0,
        location: Location::Perouse,
        big: 0,
        small: 2,
        line: 88,
    }
}

fn gen_joker_c() -> Joker {
    Joker {
        date: Date::from_ymd_opt(1, 1, 1).unwrap(),
        surname: "Testeress".to_string(),
        forename: "Cloe".to_string(),
        warning: 0,
        location: Location::Perouse,
        big: 3,
        small: 3,
        line: 88,
    }
}

fn gen_jokers() -> [Joker; 3] {
    [gen_joker_a(), gen_joker_b(), gen_joker_c()]
}

fn member(contract_no: &str, member_no: u32, surname: &str, forename: &str) -> Member {
    Member::new_from_values(
        contract_no,
        member_no,
        surname,
        forename,
        1,
        0,
        Location::Gerlingen,
        true,
    )
}

fn tick(name: &str, big: u32, small: u32) -> TickOffItem {
    TickOffItem {
        name: name.to_string(),
        big,
        small,
    }
}

fn surnames(members: &[Member]) -> Vec<String> {
    members.iter().map(|m| m.surname.clone()).collect()
}

#[test]
fn test_get_big_amount() {
    let toi = gen_toi_ok();
    assert_eq!(get_amount_big(&toi), 5);
}

#[test]
fn test_get_small_amount() {
    let toi = gen_toi_ok();
    assert_eq!(get_amount_small(&toi), 5);
}

#[test]
fn amounts_of_an_empty_list_are_zero() {
    assert_eq!(get_amount_big(&[]), 0);
    assert_eq!(get_amount_small(&[]), 0);
}

#[test]
fn test_check_for_members_in_tickoff_list() {
    let [a, a_small, b, c] = gen_toi_fail();
    let [m, n, _o] = gen_members();

    let r = check_for_members_in_tickoff_list(
        &vec![m.clone(), n.clone()],
        &vec![a.clone(), b.clone()],
    );
    assert!(r.is_none(), "Base test");
    assert_eq!(r, None);

    let r = check_for_members_in_tickoff_list(
        &vec![m.clone(), n.clone()],
        &vec![a_small.clone(), b.clone()],
    );
    assert!(r.is_none(), "Error in small caps");
    assert_eq!(r, None);

    // One entry missing
    let r = check_for_members_in_tickoff_list(&vec![m.clone(), n.clone()], &vec![a.clone()]);
    assert!(r.is_some());
    assert_eq!(r, Some(1));

    // Second entry missing
    let r = check_for_members_in_tickoff_list(&vec![m.clone(), n.clone()], &vec![b.clone()]);
    assert!(r.is_some());
    assert_eq!(r, Some(1));

    // Empty tickoff
    let r = check_for_members_in_tickoff_list(&vec![m.clone(), n.clone()], &vec![]);
    assert_eq!(r, Some(2));

    // Invalid entry
    let r = check_for_members_in_tickoff_list(&vec![m.clone(), n.clone()], &vec![c.clone()]);
    assert!(r.is_some());
    assert_eq!(r, Some(4));
}

#[test]
fn test_check_tickoff_list_against_members() {
    let [a, _a_small, b, _c] = gen_toi_fail();
    let [m, n, _c] = gen_members();

    let r = check_tickoff_list_against_members(
        &vec![m.clone(), n.clone()],
        &vec![a.clone(), b.clone()],
    );
    assert!(r.is_none(), "Base test");
    assert_eq!(r, None);

    let r = check_tickoff_list_against_members(&vec![m.clone()], &vec![a.clone(), b.clone()]);
    assert!(r.is_some(), "One missing");
    assert_eq!(r, Some(1));

    let r = check_tickoff_list_against_members(&vec![], &vec![a.clone(), b.clone()]);
    assert!(r.is_some(), "Two missing");
    assert_eq!(r, Some(2));
}

#[test]
fn test_check_tickoff_list_wrong_size() {
    let [mut a, mut b, _c] = gen_toi_ok();
    let [m, n, _c] = gen_members();
    a.big = 999;
    let r = check_tickoff_list_against_members(
        &vec![m.clone(), n.clone()],
        &vec![a.clone(), b.clone()],
    );
    assert!(r.is_some(), "Base test");
    assert_eq!(r, Some(1));

    a.big = 99;
    a.small = 32;
    b.big = 42;
    b.small = 11;
    let r = check_tickoff_list_against_members(
        &vec![m.clone(), n.clone()],
        &vec![a.clone(), b.clone()],
    );
    assert!(r.is_some(), "Base test");
    assert_eq!(r, Some(4));
}

#[test]
fn three_members_each_ticked_off_once_give_no_warning() {
    let members = gen_members().to_vec();
    let tally = gen_toi_ok().to_vec();
    assert_eq!(check_for_members_in_tickoff_list(&members, &tally), None);
    assert_eq!(check_tickoff_list_against_members(&members, &tally), None);
}

#[test]
fn removing_the_entry_of_a_member_adds_one_warning() {
    let members = gen_members().to_vec();
    let [a, b, c] = gen_toi_ok();
    let all = vec![a.clone(), b.clone(), c.clone()];
    assert_eq!(check_for_members_in_tickoff_list(&members, &all), None);
    assert_eq!(
        check_for_members_in_tickoff_list(&members, &vec![a.clone(), c.clone()]),
        Some(1)
    );
    assert_eq!(
        check_for_members_in_tickoff_list(&members, &vec![c.clone()]),
        Some(2)
    );
    let malformed = tick("Fail", 1, 1);
    let with_malformed = vec![a.clone(), b.clone(), c.clone(), malformed.clone()];
    assert_eq!(
        check_for_members_in_tickoff_list(&members, &with_malformed),
        Some(3)
    );
    assert_eq!(
        check_for_members_in_tickoff_list(&members, &vec![a, c, malformed]),
        Some(4)
    );
}

#[test]
fn removing_one_of_two_entries_of_a_member_changes_nothing() {
    let [m, n, _o] = gen_members();
    let [a, a_small, b, _c] = gen_toi_fail();
    let members = vec![m, n];
    assert_eq!(
        check_for_members_in_tickoff_list(&members, &vec![a.clone(), a_small, b.clone()]),
        None
    );
    assert_eq!(
        check_for_members_in_tickoff_list(&members, &vec![a, b]),
        None
    );
}

#[test]
fn empty_tally_warns_of_every_member() {
    let members = gen_members().to_vec();
    assert_eq!(check_for_members_in_tickoff_list(&members, &vec![]), Some(3));
    assert_eq!(
        check_for_members_in_tickoff_list(&members[..1].to_vec(), &vec![]),
        Some(1)
    );
    assert_eq!(check_for_members_in_tickoff_list(&vec![], &vec![]), None);
    assert_eq!(check_tickoff_list_against_members(&members, &vec![]), None);
}

#[test]
fn malformed_entry_is_a_warning_for_every_member() {
    let members = gen_members().to_vec();
    let [a, b, c] = gen_toi_ok();
    let malformed = tick("Testerin A.", 2, 0);
    // every member is ticked off, and the malformed entry counts for each
    assert_eq!(
        check_for_members_in_tickoff_list(
            &members,
            &vec![malformed.clone(), a.clone(), b.clone(), c.clone()]
        ),
        Some(3)
    );
    // the count does not depend on where the malformed entry stands
    assert_eq!(
        check_for_members_in_tickoff_list(
            &members,
            &vec![a.clone(), b.clone(), c.clone(), malformed.clone()]
        ),
        Some(3)
    );
    // nobody is ticked off by the malformed entry
    assert_eq!(
        check_for_members_in_tickoff_list(&members, &vec![malformed.clone()]),
        Some(6)
    );
    // against no member there is nothing to hold it against
    assert_eq!(
        check_for_members_in_tickoff_list(&vec![], &vec![malformed]),
        None
    );
}

#[test]
fn malformed_entry_is_one_warning_of_the_tally() {
    let members = gen_members().to_vec();
    let [a, b, _c] = gen_toi_ok();
    let malformed = tick("Testerin A.", 2, 0);
    assert_eq!(
        check_tickoff_list_against_members(&members, &vec![malformed.clone()]),
        Some(1)
    );
    assert_eq!(
        check_tickoff_list_against_members(&vec![], &vec![malformed.clone()]),
        Some(1)
    );
    assert_eq!(
        check_tickoff_list_against_members(&members, &vec![a, malformed, b]),
        Some(1)
    );
}

#[test]
fn repeated_entries_count_once_for_the_members() {
    let members = gen_members().to_vec();
    let malformed = tick("Fail", 2, 4);
    let other = tick("Fail", 2, 5);
    assert_eq!(
        check_for_members_in_tickoff_list(
            &members,
            &vec![malformed.clone(), malformed.clone(), malformed.clone()]
        ),
        Some(6)
    );
    // the same name with another quantity is another entry
    assert_eq!(
        check_for_members_in_tickoff_list(&members, &vec![malformed.clone(), other.clone()]),
        Some(9)
    );
    // the check of the tally goes through the sheet as it is
    assert_eq!(
        check_tickoff_list_against_members(&members, &vec![malformed.clone(), malformed, other]),
        Some(3)
    );
}

#[test]
fn distinct_entries_keep_the_first_of_each() {
    let a = tick("Tester, B.", 0, 2);
    let b = tick("Tester, B.", 1, 2);
    let c = tick("Tester, B.", 0, 3);
    let d = tick("tester, b.", 0, 2);
    let list = vec![
        a.clone(),
        b.clone(),
        a.clone(),
        c.clone(),
        b.clone(),
        d.clone(),
        a.clone(),
    ];
    assert_eq!(distinct_entries(&list), vec![a, b, c, d]);
    assert_eq!(distinct_entries(&vec![]), vec![]);
}

#[test]
fn quantity_mismatch_is_one_warning_for_each_quantity() {
    let alice = Member::new_from_values("EV-1", 1, "Testerin", "Alice", 2, 0, Location::Perouse, true);
    let members = vec![alice];
    assert_eq!(
        check_tickoff_list_against_members(&members, &vec![tick("Testerin, A.", 2, 0)]),
        None
    );
    assert_eq!(
        check_tickoff_list_against_members(&members, &vec![tick("Testerin, A.", 99, 0)]),
        Some(1)
    );
    assert_eq!(
        check_tickoff_list_against_members(&members, &vec![tick("Testerin, A.", 2, 1)]),
        Some(1)
    );
    assert_eq!(
        check_tickoff_list_against_members(&members, &vec![tick("Testerin, A.", 99, 7)]),
        Some(2)
    );
}

#[test]
fn first_matching_member_decides_the_quantities() {
    let anna = Member::new_from_values("EV-1", 1, "Tester", "Anna", 1, 0, Location::Perouse, true);
    let axel = Member::new_from_values("EV-2", 2, "Tester", "Axel", 0, 1, Location::Perouse, true);
    let entry = tick("Tester, A.", 0, 1);
    assert_eq!(
        check_tickoff_list_against_members(&vec![anna.clone(), axel.clone()], &vec![entry.clone()]),
        Some(2)
    );
    assert_eq!(
        check_tickoff_list_against_members(&vec![axel.clone(), anna.clone()], &vec![entry.clone()]),
        None
    );
    // one entry ticks off both
    assert_eq!(
        check_for_members_in_tickoff_list(&vec![anna, axel], &vec![entry]),
        None
    );
}

#[test]
fn scenario_cloe_is_missing() {
    let members = gen_members().to_vec();
    let tally = vec![tick("Testerin, A.", 2, 0), tick("Tester, B.", 0, 2)];
    assert_eq!(check_for_members_in_tickoff_list(&members, &tally), Some(1));
    assert_eq!(check_tickoff_list_against_members(&members, &tally), None);
}

#[test]
fn duplicate_surnames_flag_both_members() {
    let members = vec![
        member("EV-1", 1, "Duck", "Donald"),
        member("EV-2", 2, "Mouse", "Mickey"),
        member("EV-3", 3, "Duck", "Daisy"),
        member("EV-4", 4, "duck", "Dagobert"),
    ];
    let found = check_member_list(&members);
    assert_eq!(found.surname, vec![0, 2]);
    assert_eq!(found.member_no, Vec::<usize>::new());
    assert_eq!(found.contract_no, Vec::<usize>::new());
}

#[test]
fn duplicate_member_numbers_flag_on_their_pass_only() {
    let members = vec![
        member("EV-1", 7, "Duck", "Donald"),
        member("EV-2", 2, "Mouse", "Mickey"),
        member("EV-3", 7, "Gans", "Gustav"),
    ];
    let found = check_member_list(&members);
    assert_eq!(found.surname, Vec::<usize>::new());
    assert_eq!(found.member_no, vec![0, 2]);
    assert_eq!(found.contract_no, Vec::<usize>::new());
}

#[test]
fn duplicate_contract_numbers_are_compared_letter_for_letter() {
    let members = vec![
        member("EV-1", 1, "Duck", "Donald"),
        member("ev-1", 2, "Mouse", "Mickey"),
        member("EV-1", 3, "Gans", "Gustav"),
        member("EV-1", 4, "Duck", "Daisy"),
    ];
    let found = check_member_list(&members);
    assert_eq!(found.surname, vec![0, 3]);
    assert_eq!(found.member_no, Vec::<usize>::new());
    assert_eq!(found.contract_no, vec![0, 2, 3]);
    assert_eq!(members.len(), 4);
}

#[test]
fn member_list_without_duplicates_is_clean() {
    let found = check_member_list(&gen_members().to_vec());
    assert!(found.surname.is_empty());
    assert!(found.member_no.is_empty());
    assert!(found.contract_no.is_empty());
    let found = check_member_list(&vec![]);
    assert!(found.surname.is_empty());
}

#[test]
fn filters_keep_the_order_and_leave_the_input() {
    let a = Member::new_from_values("EV-1", 1, "A", "Anna", 1, 0, Location::Perouse, true);
    let b = Member::new_from_values("EV-2", 2, "B", "Bert", 0, 1, Location::Gerlingen, false);
    let c = Member::new_from_values("EV-3", 3, "C", "Cleo", 2, 2, Location::Perouse, true);
    let d = Member::new_from_values("EV-4", 4, "D", "Dora", 0, 0, Location::Leonberg, true);
    let members = vec![a, b, c, d];
    assert_eq!(
        surnames(&filter_active_members(members.clone())),
        vec!["A", "C", "D"]
    );
    assert_eq!(
        surnames(&filter_members_by_location(&members, Location::Perouse)),
        vec!["A", "C"]
    );
    assert_eq!(
        surnames(&filter_members_by_location(&members, Location::Neuhausen)),
        Vec::<String>::new()
    );
    assert_eq!(surnames(&filter_members_by_big(&members)), vec!["A", "C"]);
    assert_eq!(surnames(&filter_members_by_small(&members)), vec!["B", "C"]);
    assert_eq!(surnames(&members), vec!["A", "B", "C", "D"]);
}

#[test]
fn filter_jokers_takes_off_who_declared_one() {
    let members = gen_members().to_vec();
    let mut joker = gen_joker_b();
    joker.surname = "TESTER".to_string();
    joker.forename = "bob".to_string();
    let left = filter_jokers(&members, &[joker]);
    assert_eq!(surnames(&left), vec!["Testerin", "Testeress"]);
    let mut other = gen_joker_b();
    other.forename = "Bert".to_string();
    let left = filter_jokers(&members, &[other]);
    assert_eq!(left.len(), 3);
    assert_eq!(filter_jokers(&members, &[]).len(), 3);
}

#[test]
fn jokers_are_filtered_by_the_exact_day_and_by_location() {
    let mut early = gen_joker_a();
    early.date = Date::from_ymd_opt(2025, 11, 7).unwrap();
    let mut late = gen_joker_b();
    late.date = Date::from_ymd_opt(2025, 11, 14).unwrap();
    late.location = Location::Renningen;
    let mut other = gen_joker_c();
    other.date = Date::from_ymd_opt(2025, 11, 7).unwrap();
    other.location = Location::Renningen;
    let jokers = vec![early, late, other];
    let day = Date::from_ymd_opt(2025, 11, 7).unwrap();
    let found = filter_jokers_by_date(&jokers, &day);
    assert_eq!(found.len(), 2);
    assert_eq!(found[0].surname, "Testerin");
    assert_eq!(found[1].surname, "Testeress");
    let none = filter_jokers_by_date(&jokers, &Date::from_ymd_opt(2025, 11, 8).unwrap());
    assert!(none.is_empty());
    let found = filter_jokers_by_location(jokers.clone(), &Location::Renningen);
    assert_eq!(found.len(), 2);
    assert_eq!(found[0].surname, "Tester");
    assert_eq!(found[1].surname, "Testeress");
    assert_eq!(jokers.len(), 3);
}

#[test]
fn test_check_joker_list() {
    let members = gen_members();
    let jokers = gen_jokers();

    let result = check_joker_list(&members, &jokers);
    assert!(result == 0);
    assert_eq!(result, 0);
}

#[test]
fn test_check_joker_names_extra_joker() {
    let members = gen_members();
    let mut jokers = gen_jokers().to_vec();
    let j = Joker {
        date: Date::from_ymd_opt(1, 1, 1).unwrap(),
        surname: "Nobody".to_string(),
        forename: "Nono".to_string(),
        warning: 0,
        location: Location::Perouse,
        big: 0,
        small: 2,
        line: 88,
    };
    jokers.push(j);
    let result = check_joker_names(&members, &jokers);
    assert!(result > 0);
    assert_eq!(result, 1);
}

#[test]
fn joker_of_an_inactive_member_needs_the_surname_only() {
    let inactive = Member::new_from_values("EV-1", 1, "Tester", "Bob", 0, 2, Location::Perouse, false);
    let active = Member::new_from_values("EV-1", 1, "Tester", "Bob", 0, 2, Location::Perouse, true);
    let mut joker = gen_joker_b();
    joker.forename = "Robert".to_string();
    assert_eq!(check_joker_names(&[inactive], &[joker.clone()]), 0);
    assert_eq!(check_joker_names(&[active.clone()], &[joker.clone()]), 1);
    joker.forename = "BOB".to_string();
    joker.surname = "tester".to_string();
    assert_eq!(check_joker_names(&[active], &[joker.clone()]), 0);
    assert_eq!(check_joker_names(&[], &[joker.clone(), joker]), 2);
}

#[test]
fn test_analyze_jokers() {
    let date = Date::from_ymd_opt(2025, 11, 7).unwrap();
    let members = gen_members();
    let jokers = gen_jokers();
    let (m, b, s) = analyze_jokers(&members, &jokers, &date);
    assert_eq!(m, 3);
    assert_eq!(b, 2);
    assert_eq!(s, 2);
}

#[test]
fn analyze_jokers_takes_off_the_jokers_of_the_day() {
    let date = Date::from_ymd_opt(1, 1, 1).unwrap();
    let members = gen_members();
    let jokers = [gen_joker_a()];
    assert_eq!(analyze_jokers(&members, &jokers, &date), (2, 1, 2));
    assert_eq!(analyze_jokers(&members, &gen_jokers(), &date), (0, 0, 0));
}

#[test]
fn location_report_counts_members_and_warnings() {
    let mut members = gen_members().to_vec();
    members.push(Member::new_from_values(
        "EV-4",
        4,
        "Elsewhere",
        "Eve",
        1,
        0,
        Location::Leonberg,
        true,
    ));
    let tally = vec![
        tick("Testerin, A.", 2, 0),
        tick("Tester, B.", 0, 3),
        tick("Fail", 1, 1),
    ];
    assert!(checks_apply(&members, &tally));
    let report = analyze_location(&members, &Location::Perouse, &tally);
    assert_eq!(report.members, 3);
    assert_eq!(report.big, 2);
    assert_eq!(report.small, 2);
    // members: one malformed entry for each of three, and Cloe is missing;
    // tally: Bob's small share differs, and the malformed entry
    assert_eq!(report.warnings, 4 + 2);
    assert!(!report.is_balanced());
    let report = analyze_location(&members, &Location::Leonberg, &vec![]);
    assert_eq!(
        (report.members, report.big, report.small, report.warnings),
        (1, 1, 0, 1)
    );
    assert!(report.is_balanced());
}

#[test]
fn checks_do_not_apply_to_a_member_without_forename() {
    let nameless = Member::new_from_values("EV-1", 1, "Tester", "", 0, 2, Location::Perouse, true);
    assert!(!checks_apply(&vec![nameless], &vec![]));
    assert!(checks_apply(&vec![], &vec![]));
}

#[test]
fn members_and_entries_are_found_one_by_one() {
    let members = gen_members().to_vec();
    let tally = vec![tick("tester, b.", 0, 2), tick("Fail", 0, 0)];
    assert!(!member_is_ticked_off(&members[0], &tally));
    assert!(member_is_ticked_off(&members[1], &tally));
    assert!(!member_is_ticked_off(&members[2], &tally));
    assert!(!member_is_ticked_off(&members[1], &vec![]));
    assert_eq!(
        find_denoted(&members, &tally[0]).map(|m| m.member_no),
        Some(2)
    );
    assert!(find_denoted(&members, &tally[1]).is_none());
    assert!(find_denoted(&vec![], &tally[0]).is_none());
}

#[test]
fn lowered_names_are_compared_as_they_are_given() {
    assert!(lowered_names_agree("tester", "bob", "tester", "bob"));
    assert!(!lowered_names_agree("tester", "bob", "Tester", "bob"));
    assert!(!lowered_names_agree("tester", "bob", "tester", "bert"));
    assert!(!lowered_names_agree("tester", "bob", "bob", "tester"));
    assert!(lowered_names_account("tester", "bob", "tester", "bob", true));
    assert!(lowered_names_account("tester", "bob", "tester", "bert", false));
    assert!(!lowered_names_account("tester", "bob", "tester", "bert", true));
    assert!(!lowered_names_account("tester", "bob", "testerin", "bob", false));
    assert!(!lowered_names_account("tester", "bob", "TESTER", "bob", true));
}

#[test]
fn member_has_the_joker_of_its_names() {
    let [alice, bob, _cloe] = gen_members();
    let jokers = vec![gen_joker_a(), gen_joker_c()];
    assert!(member_has_joker(&alice, &jokers));
    assert!(!member_has_joker(&bob, &jokers));
    assert!(!member_has_joker(&alice, &[]));
}
