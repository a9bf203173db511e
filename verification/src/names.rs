//! The name matcher: the tally sheets write a person as `"Surname, I."`, the
//! roster as surname and forename. This module says when a tally name is well
//! formed, takes it apart, and compares it with a member's names.

use crate::text::{
    ascii_folded, char_is_ascii_letter, chars_eq_ignore_ascii_case, chars_of, is_ascii_letter,
    lowercase, lowercased, str_eq,
};
use vstd::prelude::*;
use vstd::string::*;

verus! {

/// A character that a surname on a tally sheet may hold: an ASCII letter, one
/// of the six German umlauts, a hyphen or a space.
pub open spec fn is_surname_char(c: char) -> bool {
    ||| is_ascii_letter(c)
    ||| c == '\u{c4}'
    ||| c == '\u{d6}'
    ||| c == '\u{dc}'
    ||| c == '\u{e4}'
    ||| c == '\u{f6}'
    ||| c == '\u{fc}'
    ||| c == '-'
    ||| c == ' '
}

/// A surname as a tally sheet may write it: at least one character, each of
/// them allowed.
pub open spec fn is_surname(s: Seq<char>) -> bool {
    s.len() > 0 && forall|i: int| 0 <= i < s.len() ==> is_surname_char(#[trigger] s[i])
}

/// The tally name of a person: the surname, a comma, a space, the initial of
/// the forename and a full stop.
pub open spec fn tally_name(surname: Seq<char>, initial: char) -> Seq<char> {
    surname + seq![',', ' ', initial, '.']
}

/// The part of a tally name that holds the surname.
pub open spec fn name_surname(name: Seq<char>) -> Seq<char> {
    name.take(name.len() - 4)
}

/// The initial that a tally name holds.
pub open spec fn name_initial(name: Seq<char>) -> char {
    name[name.len() - 2]
}

/// Whether a text is a well-formed tally name: a surname followed by `", "`,
/// exactly one ASCII letter and `"."`.
pub open spec fn is_well_formed_name(name: Seq<char>) -> bool {
    &&& name.len() >= 5
    &&& is_surname(name_surname(name))
    &&& name[name.len() - 4] == ','
    &&& name[name.len() - 3] == ' '
    &&& is_ascii_letter(name_initial(name))
    &&& name[name.len() - 1] == '.'
}

/// Whether a tally name denotes the member with the given names: the tally
/// name is well formed, its surname is the member's up to case, and its
/// initial is the first character of the member's forename up to ASCII case.
/// A malformed tally name denotes nobody.
pub open spec fn names_equal(surname: Seq<char>, forename: Seq<char>, name: Seq<char>) -> bool {
    &&& is_well_formed_name(name)
    &&& lowercased(surname) == lowercased(name_surname(name))
    &&& forename.len() > 0
    &&& ascii_folded(forename[0]) == ascii_folded(name_initial(name))
}

fn char_is_surname_char(c: char) -> (yes: bool)
    ensures
        yes == is_surname_char(c),
{
    char_is_ascii_letter(c) || c == '\u{c4}' || c == '\u{d6}' || c == '\u{dc}' || c == '\u{e4}'
        || c == '\u{f6}' || c == '\u{fc}' || c == '-' || c == ' '
}

fn chars_well_formed(chars: &Vec<char>) -> (yes: bool)
    ensures
        yes == is_well_formed_name(chars@),
{
    let n = chars.len();
    if n < 5 {
        return false;
    }
    if chars[n - 4] != ',' || chars[n - 3] != ' ' || !char_is_ascii_letter(chars[n - 2]) || chars[n
        - 1] != '.' {
        return false;
    }
    let ghost surname = name_surname(chars@);
    let mut at: usize = 0;
    while at < n - 4
        invariant
            at <= n - 4,
            n == chars@.len(),
            n >= 5,
            surname == name_surname(chars@),
            forall|i: int| 0 <= i < at ==> is_surname_char(#[trigger] surname[i]),
        decreases n - at,
    {
        assert(surname[at as int] == chars@[at as int]);
        if !char_is_surname_char(chars[at]) {
            return false;
        }
        at += 1;
    }
    true
}

/// Whether `name` is a well-formed tally name.
pub fn check_name_with_initial(name: &str) -> (well_formed: bool)
    ensures
        well_formed == is_well_formed_name(name@),
{
    let chars = chars_of(name);
    chars_well_formed(&chars)
}

/// Takes a tally name apart into its surname and its initial. A malformed
/// name has no parts.
pub fn split_name(name: &str) -> (parts: Option<(&str, &str)>)
    ensures
        match parts {
            Some((surname, initial)) => {
                &&& is_well_formed_name(name@)
                &&& surname@ == name_surname(name@)
                &&& initial@ == seq![name_initial(name@)]
            },
            None => !is_well_formed_name(name@),
        },
{
    let chars = chars_of(name);
    if !chars_well_formed(&chars) {
        return None;
    }
    let n = chars.len();
    let surname = name.substring_char(0, n - 4);
    let initial = name.substring_char(n - 2, n - 1);
    assert(surname@ =~= name_surname(name@));
    assert(initial@ =~= seq![name_initial(name@)]);
    Some((surname, initial))
}

/// Whether surname and initial of a tally name are those of a member, given
/// both surnames in lowercase: the surnames are the same, and the initial is
/// the first character of the forename up to ASCII case.
pub fn parts_equal(lower_surname: &str, forename: &str, lower_name: &str, initial: &str) -> (equal:
    bool)
    requires
        forename@.len() > 0,
        initial@.len() > 0,
    ensures
        equal == (lower_surname@ == lower_name@ && ascii_folded(forename@[0]) == ascii_folded(
            initial@[0],
        )),
{
    str_eq(lower_surname, lower_name) && chars_eq_ignore_ascii_case(
        forename.get_char(0),
        initial.get_char(0),
    )
}

/// Whether the tally name `name_with_initial` denotes the member called
/// `forename` `surname`.
///
/// A member has a forename: an empty one is not accepted.
pub fn check_name_equality(surname: &str, forename: &str, name_with_initial: &str) -> (equal: bool)
    requires
        forename@.len() > 0,
    ensures
        equal == names_equal(surname@, forename@, name_with_initial@),
{
    match split_name(name_with_initial) {
        None => false,
        Some((name, initial)) => parts_equal(
            lowercase(surname).as_str(),
            forename,
            lowercase(name).as_str(),
            initial,
        ),
    }
}

/// Taking a tally name apart gives back exactly the surname and the initial
/// it was written from.
pub proof fn lemma_split_of_tally_name(surname: Seq<char>, initial: char)
    requires
        is_surname(surname),
        is_ascii_letter(initial),
    ensures
        is_well_formed_name(tally_name(surname, initial)),
        name_surname(tally_name(surname, initial)) == surname,
        name_initial(tally_name(surname, initial)) == initial,
{
    let name = tally_name(surname, initial);
    assert(name_surname(name) =~= surname);
}

/// A well-formed tally name is the tally name of its own parts, and of no
/// others.
pub proof fn lemma_well_formed_is_tally_name(name: Seq<char>)
    requires
        is_well_formed_name(name),
    ensures
        name == tally_name(name_surname(name), name_initial(name)),
        forall|surname: Seq<char>, initial: char|
            name == #[trigger] tally_name(surname, initial) ==> surname == name_surname(name)
                && initial == name_initial(name),
{
    assert(name =~= tally_name(name_surname(name), name_initial(name)));
    assert forall|surname: Seq<char>, initial: char|
        name == #[trigger] tally_name(surname, initial) implies surname == name_surname(name)
        && initial == name_initial(name) by {
        assert(name_surname(name) =~= surname);
        assert(tally_name(surname, initial)[surname.len() as int + 2] == initial);
    }
}

/// A text without a comma is no tally name.
pub proof fn lemma_no_comma_is_malformed(name: Seq<char>)
    requires
        !name.contains(','),
    ensures
        !is_well_formed_name(name),
{
    if name.len() >= 5 {
        assert(name.contains(name[name.len() - 4]));
    }
}

/// A text that does not end in a full stop is no tally name.
pub proof fn lemma_no_full_stop_is_malformed(name: Seq<char>)
    requires
        name.len() == 0 || name.last() != '.',
    ensures
        !is_well_formed_name(name),
{
}

/// A text with anything but a single character between `", "` and the final
/// full stop is no tally name, whatever stands before the comma.
pub proof fn lemma_trailing_characters_are_malformed(front: Seq<char>, trailing: Seq<char>)
    requires
        trailing.len() != 1,
    ensures
        !is_well_formed_name(front + seq![',', ' '] + trailing + seq!['.']),
{
    let name = front + seq![',', ' '] + trailing + seq!['.'];
    if trailing.len() == 0 {
        assert(name[name.len() - 3] == ',');
    } else {
        assert(name[front.len() as int] == ',');
        assert(name_surname(name)[front.len() as int] == ',');
        assert(!is_surname_char(','));
    }
}

/// Whether a tally name denotes a member depends on the member's surname
/// only up to case, and on the forename only through its first character up
/// to ASCII case.
pub proof fn lemma_names_equal_ignores_case(
    surname: Seq<char>,
    forename: Seq<char>,
    other_surname: Seq<char>,
    other_forename: Seq<char>,
    name: Seq<char>,
)
    requires
        lowercased(surname) == lowercased(other_surname),
        forename.len() > 0,
        other_forename.len() > 0,
        ascii_folded(forename[0]) == ascii_folded(other_forename[0]),
    ensures
        names_equal(surname, forename, name) == names_equal(other_surname, other_forename, name),
{
}

/// A malformed tally name denotes no member.
pub proof fn lemma_malformed_name_matches_nobody(
    surname: Seq<char>,
    forename: Seq<char>,
    name: Seq<char>,
)
    requires
        !is_well_formed_name(name),
    ensures
        !names_equal(surname, forename, name),
{
}

} // verus!
