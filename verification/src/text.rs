//! Text: numbers in decimal notation, white space, and the pieces of a line.
use vstd::prelude::*;

verus! {

/// The digit for a number below ten.
pub open spec fn digit(d: int) -> char {
    (48 + d) as char
}

/// The number that a digit stands for; `None` for any other character.
pub open spec fn digit_value(c: char) -> Option<int> {
    if '0' <= c && c <= '9' {
        Some(c as int - 48)
    } else {
        None
    }
}

/// A number in decimal notation.
pub open spec fn decimal(n: nat) -> Seq<char>
    decreases n,
{
    if n < 10 {
        seq![digit(n as int)]
    } else {
        decimal(n / 10).push(digit((n % 10) as int))
    }
}

/// A signed number in decimal notation.
pub open spec fn signed_decimal(n: int) -> Seq<char> {
    if n < 0 {
        seq!['-'] + decimal((-n) as nat)
    } else {
        decimal(n as nat)
    }
}

/// The number that a run of digits stands for; `None` where there is no digit or
/// another character.
pub open spec fn digits_value(s: Seq<char>) -> Option<int>
    decreases s.len(),
{
    if s.len() == 0 {
        None
    } else if s.len() == 1 {
        digit_value(s[0])
    } else {
        match (digits_value(s.drop_last()), digit_value(s.last())) {
            (Some(n), Some(d)) => Some(10 * n + d),
            _ => None,
        }
    }
}

/// The number that a text stands for: digits, behind an optional sign.
pub open spec fn number_value(s: Seq<char>) -> Option<int> {
    if s.len() > 0 && s[0] == '+' {
        digits_value(s.skip(1))
    } else if s.len() > 0 && s[0] == '-' {
        match digits_value(s.skip(1)) {
            Some(n) => Some(-n),
            None => None,
        }
    } else {
        digits_value(s)
    }
}

/// Reading the decimal notation of a number gives the number.
pub proof fn decimal_round_trip(n: nat)
    ensures
        digits_value(decimal(n)) == Some(n as int),
        decimal(n).len() > 0,
        '0' <= decimal(n)[0] <= '9',
    decreases n,
{
    if n >= 10 {
        decimal_round_trip(n / 10);
        assert(decimal(n).drop_last() =~= decimal(n / 10));
    }
}

/// Reading the decimal notation of a signed number gives the number.
pub proof fn signed_decimal_round_trip(n: int)
    ensures
        number_value(signed_decimal(n)) == Some(n),
{
    if n < 0 {
        decimal_round_trip((-n) as nat);
        assert(signed_decimal(n).skip(1) =~= decimal((-n) as nat));
    } else {
        decimal_round_trip(n as nat);
    }
}

/// The characters of a text.
pub fn chars_of(s: &str) -> (chars: Vec<char>)
    ensures
        chars@ == s@,
{
    let mut chars: Vec<char> = Vec::new();
    for c in it: s.chars()
        invariant
            chars@ == s@.take(it.index() as int),
            it.seq() == s@,
    {
        chars.push(c);
    }
    chars
}

/// Whether two texts are the same.
pub fn same_text(a: &str, b: &str) -> (same: bool)
    ensures
        same == (a@ == b@),
{
    let x: Vec<char> = chars_of(a);
    let y: Vec<char> = chars_of(b);
    if x.len() != y.len() {
        return false;
    }
    let mut i: usize = 0;
    while i < x.len()
        invariant
            i <= x@.len(),
            x@ == a@,
            y@ == b@,
            x@.len() == y@.len(),
            forall|j: int| 0 <= j < i ==> x@[j] == y@[j],
        decreases x@.len() - i,
    {
        if x[i] != y[i] {
            return false;
        }
        i = i + 1;
    }
    assert(a@ =~= b@);
    true
}

/// The digit for a number below ten.
fn digit_text(d: u64) -> (s: &'static str)
    requires
        d < 10,
    ensures
        s@ == seq![digit(d as int)],
{
    proof {
        reveal_strlit("0");
        reveal_strlit("1");
        reveal_strlit("2");
        reveal_strlit("3");
        reveal_strlit("4");
        reveal_strlit("5");
        reveal_strlit("6");
        reveal_strlit("7");
        reveal_strlit("8");
        reveal_strlit("9");
    }
    let s: &'static str = match d {
        0 => "0",
        1 => "1",
        2 => "2",
        3 => "3",
        4 => "4",
        5 => "5",
        6 => "6",
        7 => "7",
        8 => "8",
        _ => "9",
    };
    assert(s@ =~= seq![digit(d as int)]);
    s
}

/// A number in decimal notation.
pub fn decimal_text(n: u64) -> (s: String)
    ensures
        s@ == decimal(n as nat),
    decreases n,
{
    if n < 10 {
        digit_text(n).to_owned()
    } else {
        let mut s: String = decimal_text(n / 10);
        s.append(digit_text(n % 10));
        assert(s@ =~= decimal(n as nat));
        s
    }
}

/// A signed number in decimal notation.
pub fn signed_decimal_text(n: i64) -> (s: String)
    ensures
        s@ == signed_decimal(n as int),
{
    if n >= 0 {
        decimal_text(n as u64)
    } else {
        let magnitude: u64 = (-(n + 1)) as u64 + 1;
        let mut s: String = "-".to_owned();
        s.append(decimal_text(magnitude).as_str());
        proof {
            reveal_strlit("-");
            assert("-"@ =~= seq!['-']);
        }
        s
    }
}

/// Numbers from the list, each behind a comma and a space.
pub open spec fn list_tail(list: Seq<i64>) -> Seq<char>
    decreases list.len(),
{
    if list.len() == 0 {
        Seq::empty()
    } else {
        list_tail(list.drop_last()) + ", "@ + signed_decimal(list.last() as int)
    }
}

/// A list of numbers in square brackets, separated by a comma and a space.
pub open spec fn list_notation(list: Seq<i64>) -> Seq<char> {
    if list.len() == 0 {
        "[]"@
    } else {
        "["@ + signed_decimal(list[0] as int) + list_tail(list.skip(1)) + "]"@
    }
}

/// A list of numbers in square brackets, separated by a comma and a space.
pub fn list_text(list: &Vec<i64>) -> (s: String)
    ensures
        s@ == list_notation(list@),
{
    if list.len() == 0 {
        return "[]".to_owned();
    }
    let mut s: String = "[".to_owned();
    s.append(signed_decimal_text(list[0]).as_str());
    let ghost front = s@;
    let ghost rest = list@.skip(1);
    let mut i: usize = 1;
    assert(s@ =~= front + list_tail(rest.take(0)));
    while i < list.len()
        invariant
            1 <= i <= list@.len(),
            rest == list@.skip(1),
            s@ == front + list_tail(rest.take(i - 1)),
        decreases list@.len() - i,
    {
        let ghost before = s@;
        s.append(", ");
        s.append(signed_decimal_text(list[i]).as_str());
        proof {
            assert(rest.take(i as int).drop_last() =~= rest.take(i - 1));
            assert(s@ =~= front + list_tail(rest.take(i as int)));
        }
        i = i + 1;
    }
    assert(rest.take(list@.len() - 1) =~= rest);
    s.append("]");
    s
}

/// Whether a character has Unicode's White_Space property.
pub open spec fn white_space(c: char) -> bool {
    ||| '\u{9}' <= c <= '\u{d}'
    ||| c == ' '
    ||| c == '\u{85}'
    ||| c == '\u{a0}'
    ||| c == '\u{1680}'
    ||| '\u{2000}' <= c <= '\u{200a}'
    ||| c == '\u{2028}'
    ||| c == '\u{2029}'
    ||| c == '\u{202f}'
    ||| c == '\u{205f}'
    ||| c == '\u{3000}'
}

/// Whether a character has Unicode's White_Space property.
pub fn is_white_space(c: char) -> (yes: bool)
    ensures
        yes == white_space(c),
{
    ('\u{9}' <= c && c <= '\u{d}') || c == ' ' || c == '\u{85}' || c == '\u{a0}' || c == '\u{1680}'
        || ('\u{2000}' <= c && c <= '\u{200a}') || c == '\u{2028}' || c == '\u{2029}'
        || c == '\u{202f}' || c == '\u{205f}' || c == '\u{3000}'
}

/// A text without the white space at its start.
pub open spec fn trimmed_start(s: Seq<char>) -> Seq<char>
    decreases s.len(),
{
    if s.len() > 0 && white_space(s[0]) {
        trimmed_start(s.skip(1))
    } else {
        s
    }
}

/// A text without the white space at its end.
pub open spec fn trimmed_end(s: Seq<char>) -> Seq<char>
    decreases s.len(),
{
    if s.len() > 0 && white_space(s.last()) {
        trimmed_end(s.drop_last())
    } else {
        s
    }
}

/// A text without the white space around it.
pub open spec fn trimmed(s: Seq<char>) -> Seq<char> {
    trimmed_end(trimmed_start(s))
}

/// Nothing but white space is left of a text exactly where it holds nothing else.
pub proof fn trimmed_empty(s: Seq<char>)
    ensures
        trimmed(s).len() == 0 <==> forall|i: int| 0 <= i < s.len() ==> white_space(s[i]),
{
    trimmed_start_empty(s);
    let t = trimmed_start(s);
    if t.len() > 0 {
        trimmed_end_keeps_first(t);
    }
}

proof fn trimmed_start_empty(s: Seq<char>)
    ensures
        trimmed_start(s).len() == 0 <==> forall|i: int| 0 <= i < s.len() ==> white_space(s[i]),
        trimmed_start(s).len() > 0 ==> !white_space(trimmed_start(s)[0]),
    decreases s.len(),
{
    if s.len() > 0 && white_space(s[0]) {
        trimmed_start_empty(s.skip(1));
        assert(forall|i: int| 0 < i < s.len() ==> s[i] == s.skip(1)[i - 1]);
        if trimmed_start(s).len() == 0 {
            assert forall|i: int| 0 <= i < s.len() implies white_space(s[i]) by {
                if i > 0 {
                    assert(white_space(s.skip(1)[i - 1]));
                }
            }
        }
    }
}

proof fn trimmed_end_keeps_first(s: Seq<char>)
    requires
        s.len() > 0,
        !white_space(s[0]),
    ensures
        trimmed_end(s).len() > 0,
    decreases s.len(),
{
    if white_space(s.last()) {
        trimmed_end_keeps_first(s.drop_last());
    }
}

/// Takes the white space around a text away.
pub fn trim(chars: &Vec<char>) -> (r: Vec<char>)
    ensures
        r@ == trimmed(chars@),
{
    let mut from: usize = 0;
    assert(chars@.skip(0) =~= chars@);
    while from < chars.len() && is_white_space(chars[from])
        invariant
            from <= chars@.len(),
            trimmed_start(chars@.skip(from as int)) == trimmed_start(chars@),
        decreases chars@.len() - from,
    {
        assert(chars@.skip(from as int).skip(1) =~= chars@.skip(from + 1));
        from = from + 1;
    }
    let ghost rest = chars@.skip(from as int);
    assert(trimmed_start(chars@) == rest);
    let mut to: usize = chars.len();
    assert(chars@.subrange(from as int, to as int) =~= rest);
    while to > from && is_white_space(chars[to - 1])
        invariant
            from <= to <= chars@.len(),
            trimmed_end(chars@.subrange(from as int, to as int)) == trimmed_end(rest),
        decreases to,
    {
        assert(chars@.subrange(from as int, to as int).drop_last() =~= chars@.subrange(
            from as int,
            to - 1,
        ));
        to = to - 1;
    }
    sub_text(chars, from, to)
}

/// A part of a text.
pub fn sub_text(chars: &Vec<char>, from: usize, to: usize) -> (r: Vec<char>)
    requires
        from <= to <= chars@.len(),
    ensures
        r@ == chars@.subrange(from as int, to as int),
{
    let mut r: Vec<char> = Vec::new();
    let mut i: usize = from;
    while i < to
        invariant
            from <= i <= to <= chars@.len(),
            r@ == chars@.subrange(from as int, i as int),
        decreases to - i,
    {
        r.push(chars[i]);
        assert(chars@.subrange(from as int, i + 1) =~= chars@.subrange(from as int, i as int).push(
            chars@[i as int],
        ));
        i = i + 1;
    }
    r
}

/// The number that a run of digits stands for, where it fits in 64 bits.
pub fn parse_digits(chars: &Vec<char>, from: usize) -> (r: Option<u64>)
    requires
        from <= chars@.len(),
    ensures
        match digits_value(chars@.skip(from as int)) {
            Some(n) if n <= u64::MAX => r == Some(n as u64),
            _ => r is None,
        },
{
    let ghost s = chars@.skip(from as int);
    if from == chars.len() {
        return None;
    }
    let mut n: u64 = 0;
    let mut i: usize = from;
    while i < chars.len()
        invariant
            from < chars@.len(),
            from <= i <= chars@.len(),
            s == chars@.skip(from as int),
            i == from ==> n == 0,
            i > from ==> digits_value(s.take(i - from)) == Some(n as int),
        decreases chars@.len() - i,
    {
        let c: char = chars[i];
        let ghost k = i - from;
        proof {
            assert(s.take(k + 1).drop_last() =~= s.take(k));
            assert(s.take(k + 1).last() == c);
        }
        if !('0' <= c && c <= '9') {
            proof {
                digits_stay_none(s, k + 1);
            }
            return None;
        }
        let d: u64 = c as u64 - 48;
        if n > (u64::MAX - d) / 10 {
            proof {
                assert(digits_value(s.take(k + 1)) == Some(10 * n + d));
                digits_grow(s, k + 1);
            }
            return None;
        }
        n = 10 * n + d;
        i = i + 1;
    }
    assert(s.take(i - from) =~= s);
    Some(n)
}

proof fn digits_stay_none(s: Seq<char>, k: int)
    requires
        1 <= k <= s.len(),
        digits_value(s.take(k)) is None,
    ensures
        digits_value(s) is None,
    decreases s.len(),
{
    if k == s.len() {
        assert(s.take(k) =~= s);
    } else {
        assert(s.drop_last().take(k) =~= s.take(k));
        digits_stay_none(s.drop_last(), k);
    }
}

proof fn digits_grow(s: Seq<char>, k: int)
    requires
        1 <= k <= s.len(),
        digits_value(s.take(k)) is Some,
        digits_value(s.take(k))->0 >= 0,
    ensures
        digits_value(s) matches Some(n) ==> n >= digits_value(s.take(k))->0,
    decreases s.len(),
{
    if k == s.len() {
        assert(s.take(k) =~= s);
    } else {
        assert(s.drop_last().take(k) =~= s.take(k));
        digits_grow(s.drop_last(), k);
    }
}

/// The number without a sign that a text stands for, where it fits in 64 bits. A
/// plus sign in front is accepted, a minus sign is not.
pub open spec fn unsigned_value(s: Seq<char>) -> Option<u64> {
    let digits = if s.len() > 0 && s[0] == '+' {
        s.skip(1)
    } else {
        s
    };
    match digits_value(digits) {
        Some(n) if n <= u64::MAX => Some(n as u64),
        _ => None,
    }
}

/// The number without a sign that a text stands for, where it fits in 64 bits.
pub fn parse_unsigned(chars: &Vec<char>) -> (r: Option<u64>)
    ensures
        r == unsigned_value(chars@),
{
    if chars.len() > 0 && chars[0] == '+' {
        parse_digits(chars, 1)
    } else {
        assert(chars@.skip(0) =~= chars@);
        parse_digits(chars, 0)
    }
}

/// The number that a text stands for, where it is neither below `i32::MIN` nor
/// above `i32::MAX`.
pub open spec fn i32_value(s: Seq<char>) -> Option<i32> {
    match number_value(s) {
        Some(n) if i32::MIN <= n <= i32::MAX => Some(n as i32),
        _ => None,
    }
}

/// The number that a text stands for, where it fits in 32 bits with a sign.
pub fn parse_i32(chars: &Vec<char>) -> (r: Option<i32>)
    ensures
        r == i32_value(chars@),
{
    proof {
        digits_not_negative(chars@);
        digits_not_negative(chars@.skip(1));
    }
    if chars.len() > 0 && chars[0] == '-' {
        match parse_digits(chars, 1) {
            Some(n) if n <= 0x8000_0000 => Some((-(n as i64)) as i32),
            _ => None,
        }
    } else {
        match parse_unsigned(chars) {
            Some(n) if n <= 0x7fff_ffff => Some(n as i32),
            _ => None,
        }
    }
}

proof fn digits_not_negative(s: Seq<char>)
    ensures
        digits_value(s) matches Some(n) ==> n >= 0,
    decreases s.len(),
{
    if s.len() > 1 {
        digits_not_negative(s.drop_last());
    }
}

/// Where `sep` first stands in `s`; the length of `s` where it does not.
pub open spec fn find(s: Seq<char>, sep: char) -> int
    decreases s.len(),
{
    if s.len() == 0 || s[0] == sep {
        0
    } else {
        1 + find(s.skip(1), sep)
    }
}

/// The parts of a text between the places where `sep` stands.
pub open spec fn parts(s: Seq<char>, sep: char) -> Seq<Seq<char>>
    decreases s.len(),
    via parts_shrink
{
    let i = find(s, sep);
    if i >= s.len() {
        seq![s]
    } else {
        seq![s.take(i)] + parts(s.skip(i + 1), sep)
    }
}

#[via_fn]
proof fn parts_shrink(s: Seq<char>, sep: char) {
    find_bounds(s, sep);
}

/// The separator does not stand before the place where it is found.
pub proof fn find_bounds(s: Seq<char>, sep: char)
    ensures
        0 <= find(s, sep) <= s.len(),
        find(s, sep) < s.len() ==> s[find(s, sep)] == sep,
        forall|i: int| 0 <= i < find(s, sep) ==> s[i] != sep,
    decreases s.len(),
{
    if s.len() > 0 && s[0] != sep {
        find_bounds(s.skip(1), sep);
        assert(forall|i: int| 0 < i < s.len() ==> s[i] == s.skip(1)[i - 1]);
    }
}

/// Where a character first stands from `from` on; the length where it does not.
pub fn find_char(chars: &Vec<char>, from: usize, sep: char) -> (i: usize)
    requires
        from <= chars@.len(),
    ensures
        i - from == find(chars@.skip(from as int), sep),
        from <= i <= chars@.len(),
{
    let mut i: usize = from;
    let ghost s = chars@.skip(from as int);
    assert(s.skip(0) =~= s);
    while i < chars.len() && chars[i] != sep
        invariant
            from <= i <= chars@.len(),
            s == chars@.skip(from as int),
            find(s, sep) == i - from + find(s.skip(i - from), sep),
        decreases chars@.len() - i,
    {
        assert(s.skip(i - from).skip(1) =~= s.skip(i - from + 1));
        i = i + 1;
    }
    i
}

/// The parts of a text between the places where a character stands.
pub fn split_text(chars: &Vec<char>, sep: char) -> (r: Vec<Vec<char>>)
    ensures
        r@.len() == parts(chars@, sep).len(),
        r@.len() > 0,
        forall|i: int| 0 <= i < r@.len() ==> (#[trigger] r@[i])@ == parts(chars@, sep)[i],
{
    let mut r: Vec<Vec<char>> = Vec::new();
    let mut from: usize = 0;
    let ghost all = parts(chars@, sep);
    assert(chars@.skip(0) =~= chars@);
    assert(all =~= Seq::<Seq<char>>::empty() + all);
    loop
        invariant
            from <= chars@.len(),
            all == parts(chars@, sep),
            all.len() == r@.len() + parts(chars@.skip(from as int), sep).len(),
            forall|i: int| 0 <= i < r@.len() ==> (#[trigger] r@[i])@ == all[i],
            all.skip(r@.len() as int) == parts(chars@.skip(from as int), sep),
        decreases chars@.len() - from,
    {
        let ghost rest = chars@.skip(from as int);
        let ghost before = r@;
        let i: usize = find_char(chars, from, sep);
        let part: Vec<char> = sub_text(chars, from, i);
        proof {
            assert(all[before.len() as int] == all.skip(before.len() as int)[0]);
        }
        if i == chars.len() {
            assert(part@ =~= rest);
            r.push(part);
            return r;
        }
        assert(part@ =~= rest.take(i - from));
        r.push(part);
        proof {
            let tail = parts(rest.skip(i - from + 1), sep);
            assert(rest.skip(i - from + 1) =~= chars@.skip(i + 1));
            assert(parts(rest, sep) == seq![rest.take(i - from)] + tail);
            assert(all.skip(before.len() as int + 1) =~= all.skip(before.len() as int).skip(1));
            assert((seq![rest.take(i - from)] + tail).skip(1) =~= tail);
        }
        from = i + 1;
    }
}

// ---------------------------------------------------------------------------
// Laws
// ---------------------------------------------------------------------------

/// Texts with `sep` between them.
pub open spec fn joined(list: Seq<Seq<char>>, sep: char) -> Seq<char>
    decreases list.len(),
{
    if list.len() == 0 {
        Seq::empty()
    } else if list.len() == 1 {
        list[0]
    } else {
        list[0] + seq![sep] + joined(list.skip(1), sep)
    }
}

proof fn find_is_first(s: Seq<char>, sep: char, i: int)
    requires
        0 <= i <= s.len(),
        i < s.len() ==> s[i] == sep,
        forall|j: int| 0 <= j < i ==> s[j] != sep,
    ensures
        find(s, sep) == i,
    decreases s.len(),
{
    if i > 0 {
        find_is_first(s.skip(1), sep, i - 1);
    }
}

/// Texts that were put together with a character between them that stands in none of
/// them are taken apart again into the same texts.
pub proof fn joined_texts_are_split(list: Seq<Seq<char>>, sep: char)
    requires
        list.len() > 0,
        forall|i: int| 0 <= i < list.len() ==> !(#[trigger] list[i]).contains(sep),
    ensures
        parts(joined(list, sep), sep) == list,
    decreases list.len(),
{
    let s = joined(list, sep);
    let first = list[0];
    assert(forall|j: int| 0 <= j < first.len() ==> first.contains(#[trigger] first[j]));
    find_is_first(s, sep, first.len() as int);
    if list.len() == 1 {
        assert(parts(s, sep) =~= list);
    } else {
        let rest = list.skip(1);
        assert(forall|i: int| 0 <= i < rest.len() ==> rest[i] == list[i + 1]);
        joined_texts_are_split(rest, sep);
        assert(s.take(first.len() as int) =~= first);
        assert(s.skip(first.len() as int + 1) =~= joined(rest, sep));
        assert(parts(s, sep) =~= list);
    }
}

/// The parts of a text, put together again, are the text, and the character between them
/// stands in none of them.
pub proof fn split_text_is_joined(s: Seq<char>, sep: char)
    ensures
        parts(s, sep).len() > 0,
        joined(parts(s, sep), sep) == s,
        forall|i: int| 0 <= i < parts(s, sep).len() ==> !(#[trigger] parts(s, sep)[i]).contains(
            sep,
        ),
    decreases s.len(),
{
    let i = find(s, sep);
    find_bounds(s, sep);
    let all = parts(s, sep);
    if i < s.len() {
        let rest = s.skip(i + 1);
        split_text_is_joined(rest, sep);
        assert(all.skip(1) =~= parts(rest, sep));
        assert(joined(all, sep) =~= s);
        assert forall|k: int| 0 <= k < all.len() implies !(#[trigger] all[k]).contains(sep) by {
            if k > 0 {
                assert(all[k] == parts(rest, sep)[k - 1]);
            }
        }
    }
}

/// White space around a text is taken away, and nothing else.
pub proof fn surrounding_space_is_trimmed(before: Seq<char>, s: Seq<char>, after: Seq<char>)
    requires
        forall|i: int| 0 <= i < before.len() ==> white_space(before[i]),
        forall|i: int| 0 <= i < after.len() ==> white_space(after[i]),
        s.len() > 0,
        !white_space(s[0]),
        !white_space(s.last()),
    ensures
        trimmed(before + s + after) == s,
{
    start_is_trimmed(before, s + after);
    assert(before + s + after =~= before + (s + after));
    end_is_trimmed(s, after);
}

proof fn start_is_trimmed(before: Seq<char>, s: Seq<char>)
    requires
        forall|i: int| 0 <= i < before.len() ==> white_space(before[i]),
        s.len() > 0,
        !white_space(s[0]),
    ensures
        trimmed_start(before + s) == s,
    decreases before.len(),
{
    if before.len() == 0 {
        assert(before + s =~= s);
    } else {
        assert((before + s).skip(1) =~= before.skip(1) + s);
        start_is_trimmed(before.skip(1), s);
    }
}

proof fn end_is_trimmed(s: Seq<char>, after: Seq<char>)
    requires
        forall|i: int| 0 <= i < after.len() ==> white_space(after[i]),
        s.len() > 0,
        !white_space(s.last()),
    ensures
        trimmed_end(s + after) == s,
    decreases after.len(),
{
    if after.len() == 0 {
        assert(s + after =~= s);
    } else {
        assert((s + after).drop_last() =~= s + after.drop_last());
        end_is_trimmed(s, after.drop_last());
    }
}

/// Decimal notation is made of digits.
pub proof fn decimal_is_digits(n: nat)
    ensures
        forall|i: int| 0 <= i < decimal(n).len() ==> '0' <= #[trigger] decimal(n)[i] <= '9',
        decimal(n).len() > 0,
        n > 0 ==> decimal(n)[0] != '0',
    decreases n,
{
    if n >= 10 {
        decimal_is_digits(n / 10);
    }
}

/// A number is read back from its decimal notation, with a plus sign in front or without,
/// where it fits; one with another sign in front is none without a sign.
pub proof fn numbers_are_read_back(n: u64, k: i32)
    ensures
        unsigned_value(decimal(n as nat)) == Some(n),
        unsigned_value(seq!['+'] + decimal(n as nat)) == Some(n),
        unsigned_value(seq!['-'] + decimal(n as nat)) is None,
        i32_value(signed_decimal(k as int)) == Some(k),
        n > i32::MAX ==> i32_value(decimal(n as nat)) is None,
{
    decimal_round_trip(n as nat);
    decimal_is_digits(n as nat);
    signed_decimal_round_trip(k as int);
    assert((seq!['+'] + decimal(n as nat)).skip(1) =~= decimal(n as nat));
    let minus = seq!['-'] + decimal(n as nat);
    assert(minus.take(1) =~= seq!['-']);
    assert(digits_value(minus.take(1)) is None);
    digits_stay_none(minus, 1);
}

/// Among the ASCII characters, white space is the space and the five from the tab to the
/// carriage return; letters, digits and punctuation are none.
pub proof fn ascii_white_space(c: char)
    requires
        (c as u32) < 128,
    ensures
        white_space(c) <==> c as u32 == 32 || 9 <= c as u32 <= 13,
{
}

/// One more number goes behind a comma and a space, before the closing bracket.
pub proof fn list_notation_grows(list: Seq<i64>, x: i64)
    ensures
        list_notation(Seq::<i64>::empty()) == "[]"@,
        list_notation(seq![x]) == "["@ + signed_decimal(x as int) + "]"@,
        list.len() > 0 ==> list_notation(list).len() > 0 && list_notation(list.push(x))
            == list_notation(list).drop_last() + ", "@ + signed_decimal(x as int) + "]"@,
{
    reveal_strlit("]");
    assert("]"@ =~= seq![']']);
    assert(seq![x].skip(1) =~= Seq::<i64>::empty());
    assert(list_tail(Seq::<i64>::empty()) =~= Seq::<char>::empty());
    assert(list_notation(seq![x]) =~= "["@ + signed_decimal(x as int) + "]"@);
    if list.len() > 0 {
        let all = list.push(x);
        assert(all.skip(1).drop_last() =~= list.skip(1));
        assert(all.skip(1).last() == x);
        let front = "["@ + signed_decimal(list[0] as int) + list_tail(list.skip(1));
        assert(list_notation(list).drop_last() =~= front);
        assert(list_notation(all) =~= front + ", "@ + signed_decimal(x as int) + "]"@);
    }
}

} // verus!
