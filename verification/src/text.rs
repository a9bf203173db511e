//! String primitives shared by the record types and the name matcher:
//! comparison, case folding, trimming and decimal numbers.

use vstd::prelude::*;
use vstd::string::*;

verus! {

/// The lowercase form of a text, as `str::to_lowercase` computes it from the
/// Unicode case mappings. It depends on the characters alone.
pub uninterp spec fn lowercased(s: Seq<char>) -> Seq<char>;

/// Lowercases a text.
///
/// Wraps `str::to_lowercase`; nothing is claimed of the result beyond its
/// being the lowercase form of the argument.
#[verifier::external_body]
pub(crate) fn lowercase(s: &str) -> (lower: String)
    ensures
        lower@ == lowercased(s@),
{
    s.to_lowercase()
}

/// The characters of `s`, in order.
pub fn chars_of(s: &str) -> (out: Vec<char>)
    ensures
        out@ == s@,
{
    let mut out: Vec<char> = Vec::new();
    for c in it: s.chars()
        invariant
            out@ == it.seq().take(it.index() as int),
            it.seq() == s@,
    {
        out.push(c);
    }
    out
}

/// Whether two string slices spell the same characters.
pub fn str_eq(a: &str, b: &str) -> (same: bool)
    ensures
        same == (a@ == b@),
{
    let left = chars_of(a);
    let right = chars_of(b);
    if left.len() != right.len() {
        return false;
    }
    for i in 0..left.len()
        invariant
            left@ == a@,
            right@ == b@,
            left@.len() == right@.len(),
            forall|k: int| 0 <= k < i ==> left@[k] == right@[k],
    {
        if left[i] != right[i] {
            return false;
        }
    }
    assert(a@ =~= b@);
    true
}

/// An ASCII letter, `A` to `Z` or `a` to `z`.
pub open spec fn is_ascii_letter(c: char) -> bool {
    ('A' <= c && c <= 'Z') || ('a' <= c && c <= 'z')
}

/// The code point of `c` with the ASCII capitals mapped onto the ASCII small
/// letters; every other character keeps its code point.
pub open spec fn ascii_folded(c: char) -> int {
    if 'A' <= c && c <= 'Z' {
        c as int + 32
    } else {
        c as int
    }
}

/// Whether `c` is an ASCII letter.
pub fn char_is_ascii_letter(c: char) -> (yes: bool)
    ensures
        yes == is_ascii_letter(c),
{
    (c >= 'A' && c <= 'Z') || (c >= 'a' && c <= 'z')
}

fn fold_ascii(c: char) -> (code: u32)
    ensures
        code == ascii_folded(c),
{
    let code: u32 = c as u32;
    if c >= 'A' && c <= 'Z' {
        code + 32
    } else {
        code
    }
}

/// Whether two characters are equal up to ASCII case.
pub fn chars_eq_ignore_ascii_case(a: char, b: char) -> (same: bool)
    ensures
        same == (ascii_folded(a) == ascii_folded(b)),
{
    fold_ascii(a) == fold_ascii(b)
}

/// A character with the Unicode property `White_Space`.
pub open spec fn is_space(c: char) -> bool {
    let code = c as int;
    ||| 0x09 <= code <= 0x0d
    ||| code == 0x20
    ||| code == 0x85
    ||| code == 0xa0
    ||| code == 0x1680
    ||| 0x2000 <= code <= 0x200a
    ||| code == 0x2028
    ||| code == 0x2029
    ||| code == 0x202f
    ||| code == 0x205f
    ||| code == 0x3000
}

/// Whether `c` is white space.
pub fn char_is_space(c: char) -> (yes: bool)
    ensures
        yes == is_space(c),
{
    let code: u32 = c as u32;
    (0x09 <= code && code <= 0x0d) || code == 0x20 || code == 0x85 || code == 0xa0 || code
        == 0x1680 || (0x2000 <= code && code <= 0x200a) || code == 0x2028 || code == 0x2029 || code
        == 0x202f || code == 0x205f || code == 0x3000
}

/// `s` without its leading white space.
pub open spec fn trimmed_start(s: Seq<char>) -> Seq<char>
    decreases s.len(),
{
    if s.len() > 0 && is_space(s.first()) {
        trimmed_start(s.drop_first())
    } else {
        s
    }
}

/// `s` without its trailing white space.
pub open spec fn trimmed_end(s: Seq<char>) -> Seq<char>
    decreases s.len(),
{
    if s.len() > 0 && is_space(s.last()) {
        trimmed_end(s.drop_last())
    } else {
        s
    }
}

/// `s` without leading and trailing white space.
pub open spec fn trimmed(s: Seq<char>) -> Seq<char> {
    trimmed_end(trimmed_start(s))
}

proof fn lemma_trimmed_start_skip(s: Seq<char>, n: int)
    requires
        0 <= n <= s.len(),
        forall|i: int| 0 <= i < n ==> is_space(s[i]),
    ensures
        trimmed_start(s) == trimmed_start(s.skip(n)),
    decreases n,
{
    if n > 0 {
        let rest = s.drop_first();
        assert forall|i: int| 0 <= i < n - 1 implies is_space(rest[i]) by {
            assert(rest[i] == s[i + 1]);
        }
        lemma_trimmed_start_skip(rest, n - 1);
        assert(rest.skip(n - 1) =~= s.skip(n));
    } else {
        assert(s.skip(0) =~= s);
    }
}

proof fn lemma_trimmed_end_take(s: Seq<char>, n: int)
    requires
        0 <= n <= s.len(),
        forall|i: int| n <= i < s.len() ==> is_space(s[i]),
    ensures
        trimmed_end(s) == trimmed_end(s.take(n)),
    decreases s.len() - n,
{
    if n < s.len() {
        let rest = s.drop_last();
        lemma_trimmed_end_take(rest, n);
        assert(rest.take(n) =~= s.take(n));
    } else {
        assert(s.take(n) =~= s);
    }
}

/// Removes leading and trailing white space.
pub fn trim(s: &str) -> (out: &str)
    ensures
        out@ == trimmed(s@),
{
    let chars = chars_of(s);
    let n = chars.len();
    let mut from: usize = 0;
    while from < n && char_is_space(chars[from])
        invariant
            from <= n,
            n == chars@.len(),
            forall|i: int| 0 <= i < from ==> is_space(chars@[i]),
        decreases n - from,
    {
        from += 1;
    }
    let mut to: usize = n;
    while to > from && char_is_space(chars[to - 1])
        invariant
            from <= to <= n,
            n == chars@.len(),
            forall|i: int| to <= i < n ==> is_space(chars@[i]),
        decreases to,
    {
        to -= 1;
    }
    proof {
        let start = s@.skip(from as int);
        lemma_trimmed_start_skip(s@, from as int);
        assert(trimmed_start(s@) == start) by {
            if start.len() > 0 {
                assert(start.first() == s@[from as int]);
            }
        }
        lemma_trimmed_end_take(start, to - from);
        let kept = start.take(to - from);
        assert(kept =~= s@.subrange(from as int, to as int));
        assert(trimmed_end(kept) == kept) by {
            if kept.len() > 0 {
                assert(kept.last() == s@[to - 1]);
            }
        }
    }
    s.substring_char(from, to)
}

/// An ASCII decimal digit.
pub open spec fn is_digit(c: char) -> bool {
    '0' <= c && c <= '9'
}

/// The number that a run of decimal digits spells.
pub open spec fn digits_value(s: Seq<char>) -> nat
    decreases s.len(),
{
    if s.len() == 0 {
        0
    } else {
        (digits_value(s.drop_last()) * 10 + (s.last() as int - '0' as int)) as nat
    }
}

/// Every character of `s` is a decimal digit, and there is at least one.
pub open spec fn is_digits(s: Seq<char>) -> bool {
    s.len() > 0 && forall|i: int| 0 <= i < s.len() ==> is_digit(#[trigger] s[i])
}

/// The magnitude that a decimal number spells, if its digits are well
/// formed: the text without its first character when that is one of
/// `signs`, and the whole text otherwise.
pub open spec fn unsigned_part(s: Seq<char>, signs: Seq<char>) -> Seq<char> {
    if s.len() > 0 && signs.contains(s[0]) {
        s.drop_first()
    } else {
        s
    }
}

/// What a text means as a `u32`: an optional `+`, then decimal digits whose
/// value fits; `None` for every other text.
pub open spec fn decimal_u32(s: Seq<char>) -> Option<u32> {
    let digits = unsigned_part(s, seq!['+']);
    if is_digits(digits) && digits_value(digits) <= u32::MAX {
        Some(digits_value(digits) as u32)
    } else {
        None
    }
}

/// What a text means as an `i32`: an optional `+` or `-`, then decimal digits
/// whose signed value fits; `None` for every other text.
pub open spec fn decimal_i32(s: Seq<char>) -> Option<i32> {
    let digits = unsigned_part(s, seq!['+', '-']);
    let negative = s.len() > 0 && s[0] == '-';
    if !is_digits(digits) {
        None
    } else if negative && digits_value(digits) <= 0x8000_0000 {
        Some((-(digits_value(digits) as int)) as i32)
    } else if !negative && digits_value(digits) <= i32::MAX {
        Some(digits_value(digits) as i32)
    } else {
        None
    }
}

proof fn lemma_digits_value_grows(s: Seq<char>, n: int)
    requires
        0 <= n <= s.len(),
        forall|i: int| 0 <= i < s.len() ==> is_digit(#[trigger] s[i]),
    ensures
        digits_value(s.take(n)) <= digits_value(s),
    decreases s.len() - n,
{
    if n < s.len() {
        let rest = s.drop_last();
        lemma_digits_value_grows(rest, n);
        assert(rest.take(n) =~= s.take(n));
        assert(is_digit(s[s.len() - 1]));
    } else {
        assert(s.take(n) =~= s);
    }
}

/// The value of the digits `chars[from..]`, unless one of them is no digit,
/// there is none, or the value exceeds `limit`.
fn digits_up_to(chars: &Vec<char>, from: usize, limit: u64) -> (value: Option<u64>)
    requires
        from <= chars@.len(),
        limit <= 0xffff_ffff,
    ensures
        value == if is_digits(chars@.skip(from as int)) && digits_value(chars@.skip(from as int))
            <= limit {
            Some(digits_value(chars@.skip(from as int)) as u64)
        } else {
            None
        },
{
    let n = chars.len();
    let ghost digits = chars@.skip(from as int);
    if from == n {
        return None;
    }
    let mut value: u64 = 0;
    let mut at: usize = from;
    while at < n
        invariant
            from <= at <= n,
            n == chars@.len(),
            digits == chars@.skip(from as int),
            limit <= 0xffff_ffff,
            value == digits_value(digits.take(at - from)),
            value <= limit,
            forall|i: int| 0 <= i < at - from ==> is_digit(#[trigger] digits[i]),
        decreases n - at,
    {
        let c = chars[at];
        assert(digits[at - from] == c);
        if !(c >= '0' && c <= '9') {
            return None;
        }
        let digit: u64 = (c as u32 - 48) as u64;
        let next: u64 = value * 10 + digit;
        proof {
            let longer = digits.take(at - from + 1);
            assert(longer.drop_last() =~= digits.take(at - from));
            assert(longer.last() == c);
            assert(next == digits_value(longer));
            if next > limit {
                if is_digits(digits) {
                    lemma_digits_value_grows(digits, at - from + 1);
                }
            }
        }
        if next > limit {
            return None;
        }
        value = next;
        at += 1;
    }
    assert(digits.take(at - from) =~= digits);
    Some(value)
}

/// Reads a `u32` written in decimal, with an optional leading `+`.
pub fn parse_u32(s: &str) -> (value: Option<u32>)
    ensures
        value == decimal_u32(s@),
{
    let chars = chars_of(s);
    let from: usize = if chars.len() > 0 && chars[0] == '+' {
        1
    } else {
        0
    };
    proof {
        let signs = seq!['+'];
        if chars@.len() > 0 {
            assert(signs.contains(chars@[0]) <==> chars@[0] == '+') by {
                if chars@[0] == '+' {
                    assert(signs[0] == chars@[0]);
                }
            }
        }
        assert(unsigned_part(s@, signs) =~= chars@.skip(from as int));
    }
    match digits_up_to(&chars, from, 0xffff_ffff) {
        Some(v) => Some(v as u32),
        None => None,
    }
}

/// Reads an `i32` written in decimal, with an optional leading `+` or `-`.
pub fn parse_i32(s: &str) -> (value: Option<i32>)
    ensures
        value == decimal_i32(s@),
{
    let chars = chars_of(s);
    let negative = chars.len() > 0 && chars[0] == '-';
    let from: usize = if chars.len() > 0 && (chars[0] == '+' || chars[0] == '-') {
        1
    } else {
        0
    };
    proof {
        let signs = seq!['+', '-'];
        if chars@.len() > 0 {
            assert(signs.contains(chars@[0]) <==> (chars@[0] == '+' || chars@[0] == '-')) by {
                if chars@[0] == '+' {
                    assert(signs[0] == chars@[0]);
                }
                if chars@[0] == '-' {
                    assert(signs[1] == chars@[0]);
                }
            }
        }
        assert(unsigned_part(s@, signs) =~= chars@.skip(from as int));
    }
    if negative {
        match digits_up_to(&chars, from, 0x8000_0000) {
            Some(v) => Some((0 - v as i64) as i32),
            None => None,
        }
    } else {
        match digits_up_to(&chars, from, 0x7fff_ffff) {
            Some(v) => Some(v as i32),
            None => None,
        }
    }
}

/// The character of a decimal digit.
pub open spec fn digit_char(digit: nat) -> char {
    if digit == 0 {
        '0'
    } else if digit == 1 {
        '1'
    } else if digit == 2 {
        '2'
    } else if digit == 3 {
        '3'
    } else if digit == 4 {
        '4'
    } else if digit == 5 {
        '5'
    } else if digit == 6 {
        '6'
    } else if digit == 7 {
        '7'
    } else if digit == 8 {
        '8'
    } else {
        '9'
    }
}

/// A number written in decimal, without sign or leading zeros.
pub open spec fn decimal_digits(n: nat) -> Seq<char>
    decreases n,
{
    if n < 10 {
        seq![digit_char(n)]
    } else {
        decimal_digits(n / 10).push(digit_char(n % 10))
    }
}

fn digit_str(digit: u32) -> (out: &'static str)
    requires
        digit < 10,
    ensures
        out@ == seq![digit_char(digit as nat)],
{
    proof {
        reveal_strlit("0");
        reveal_strlit("1");
        reveal_strlit("2");
        reveal_strlit("3");
        reveal_strlit("4");
        reveal_strlit("5");
        reveal_strlit("6");
        reveal_strlit("7");
        reveal_strlit("8");
        reveal_strlit("9");
    }
    let out = match digit {
        0 => "0",
        1 => "1",
        2 => "2",
        3 => "3",
        4 => "4",
        5 => "5",
        6 => "6",
        7 => "7",
        8 => "8",
        _ => "9",
    };
    assert(out@ =~= seq![digit_char(digit as nat)]);
    out
}

/// Writes a number in decimal.
pub fn decimal_text(n: u32) -> (out: String)
    ensures
        out@ == decimal_digits(n as nat),
    decreases n,
{
    if n < 10 {
        String::from_str(digit_str(n))
    } else {
        let mut out = decimal_text(n / 10);
        out.append(digit_str(n % 10));
        assert(out@ =~= decimal_digits(n as nat));
        out
    }
}

/// A number written in decimal reads back as itself.
pub proof fn lemma_decimal_round_trip(n: u32)
    ensures
        decimal_u32(decimal_digits(n as nat)) == Some(n),
{
    lemma_decimal_digits(n as nat);
    let text = decimal_digits(n as nat);
    assert(!seq!['+'].contains(text[0])) by {
        if seq!['+'].contains(text[0]) {
            let i = choose|i: int| 0 <= i < seq!['+'].len() && seq!['+'][i] == text[0];
            assert(is_digit(text[0]));
        }
    }
}

proof fn lemma_decimal_digits(n: nat)
    ensures
        is_digits(decimal_digits(n)),
        digits_value(decimal_digits(n)) == n,
    decreases n,
{
    let text = decimal_digits(n);
    assert(forall|d: nat| d < 10 ==> #[trigger] digit_char(d) as int - '0' as int == d);
    if n < 10 {
        assert(text.drop_last() =~= Seq::<char>::empty());
        assert(digits_value(text.drop_last()) == 0);
        assert(text.last() == digit_char(n));
        assert(is_digit(text[0]));
    } else {
        lemma_decimal_digits(n / 10);
        let front = decimal_digits(n / 10);
        assert(text.drop_last() =~= front);
        assert(text.last() == digit_char(n % 10));
        assert forall|i: int| 0 <= i < text.len() implies is_digit(#[trigger] text[i]) by {
            if i < front.len() {
                assert(text[i] == front[i]);
                assert(is_digit(front[i]));
            }
        }
    }
}

/// The fields of a text that `separator` parts: a text without separator is
/// one field, and every separator ends a field and begins the next, which
/// may be empty.
pub open spec fn fields(s: Seq<char>, separator: char) -> Seq<Seq<char>>
    decreases s.len(),
{
    if s.len() == 0 {
        seq![Seq::empty()]
    } else {
        let before = fields(s.drop_last(), separator);
        if s.last() == separator {
            before.push(Seq::empty())
        } else {
            before.drop_last().push(before.last().push(s.last()))
        }
    }
}

/// The texts of a list of string slices.
pub open spec fn texts(parts: Seq<&str>) -> Seq<Seq<char>> {
    parts.map_values(|part: &str| part@)
}

/// A text has at least one field.
pub proof fn lemma_fields_nonempty(s: Seq<char>, separator: char)
    ensures
        fields(s, separator).len() >= 1,
    decreases s.len(),
{
    if s.len() > 0 {
        lemma_fields_nonempty(s.drop_last(), separator);
    }
}

/// Parts a text at every `separator`.
pub fn split(s: &str, separator: char) -> (parts: Vec<&str>)
    ensures
        texts(parts@) == fields(s@, separator),
{
    let chars = chars_of(s);
    let n = chars.len();
    let mut parts: Vec<&str> = Vec::new();
    let mut start: usize = 0;
    assert(s@.take(0) =~= Seq::<char>::empty());
    assert(fields(s@.take(0), separator) =~= texts(parts@).push(s@.subrange(0, 0)));
    for at in 0..n
        invariant
            n == s@.len(),
            chars@ == s@,
            start <= at,
            fields(s@.take(at as int), separator) == texts(parts@).push(
                s@.subrange(start as int, at as int),
            ),
    {
        let ghost front = s@.take(at as int);
        let ghost next = s@.take(at + 1);
        let ghost done = texts(parts@);
        let ghost open = s@.subrange(start as int, at as int);
        assert(next.drop_last() =~= front);
        assert(next.last() == s@[at as int]);
        assert(done.push(open).drop_last() =~= done);
        if chars[at] == separator {
            parts.push(s.substring_char(start, at));
            start = at + 1;
            assert(texts(parts@) =~= done.push(open));
            assert(s@.subrange(start as int, at + 1) =~= Seq::<char>::empty());
        } else {
            assert(s@.subrange(start as int, at + 1) =~= open.push(s@[at as int]));
        }
    }
    let ghost done = texts(parts@);
    parts.push(s.substring_char(start, n));
    assert(s@.take(n as int) =~= s@);
    assert(texts(parts@) =~= done.push(s@.subrange(start as int, n as int)));
    parts
}

} // verus!
