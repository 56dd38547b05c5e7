//! Text building blocks: numbers, comparison, trimming, splitting and case.

use vstd::prelude::*;
use vstd::string::*;

verus! {

/// The text of one decimal digit.
pub open spec fn digit(d: int) -> Seq<char> {
    if d == 0 {
        "0"@
    } else if d == 1 {
        "1"@
    } else if d == 2 {
        "2"@
    } else if d == 3 {
        "3"@
    } else if d == 4 {
        "4"@
    } else if d == 5 {
        "5"@
    } else if d == 6 {
        "6"@
    } else if d == 7 {
        "7"@
    } else if d == 8 {
        "8"@
    } else {
        "9"@
    }
}

/// `n` in decimal notation, without leading zeros.
pub open spec fn decimal(n: int) -> Seq<char>
    decreases n,
{
    if n < 10 {
        digit(n)
    } else {
        decimal(n / 10) + digit(n % 10)
    }
}

fn digit_text(d: usize) -> (r: &'static str)
    requires
        d < 10,
    ensures
        r@ == digit(d as int),
{
    match d {
        0 => "0",
        1 => "1",
        2 => "2",
        3 => "3",
        4 => "4",
        5 => "5",
        6 => "6",
        7 => "7",
        8 => "8",
        _ => "9",
    }
}

/// `n` in decimal notation.
pub fn decimal_text(n: usize) -> (r: String)
    ensures
        r@ == decimal(n as int),
    decreases n,
{
    if n < 10 {
        digit_text(n).to_owned()
    } else {
        let mut s: String = decimal_text(n / 10);
        s.append(digit_text(n % 10));
        s
    }
}

/// Whether `part` stands in `whole` from position `k` on.
pub open spec fn occurs_at(part: Seq<char>, whole: Seq<char>, k: int) -> bool {
    0 <= k && k + part.len() <= whole.len() && whole.subrange(k, k + part.len()) == part
}

/// Whether `part` stands somewhere in `whole`.
pub open spec fn occurs(part: Seq<char>, whole: Seq<char>) -> bool {
    exists|k: int| occurs_at(part, whole, k)
}

/// A text that is appended stands at the end.
pub proof fn occurs_at_the_end(before: Seq<char>, part: Seq<char>)
    ensures
        occurs(part, before + part),
{
    let whole = before + part;
    let k = before.len() as int;
    assert(whole.subrange(k, k + part.len()) =~= part);
    assert(occurs_at(part, whole, k));
}

/// What stands in a text still stands there when more is appended.
pub proof fn occurs_in_longer(part: Seq<char>, whole: Seq<char>, more: Seq<char>)
    requires
        occurs(part, whole),
    ensures
        occurs(part, whole + more),
{
    let k = choose|k: int| occurs_at(part, whole, k);
    assert((whole + more).subrange(k, k + part.len()) =~= whole.subrange(k, k + part.len()));
    assert(occurs_at(part, whole + more, k));
}

/// What stands in a text still stands there when more is put before it.
pub proof fn occurs_after(part: Seq<char>, more: Seq<char>, whole: Seq<char>)
    requires
        occurs(part, whole),
    ensures
        occurs(part, more + whole),
{
    let k = choose|k: int| occurs_at(part, whole, k);
    let j = more.len() + k;
    assert((more + whole).subrange(j, j + part.len()) =~= whole.subrange(k, k + part.len()));
    assert(occurs_at(part, more + whole, j));
}

/// Whether two strings hold the same characters.
pub fn same_text(a: &str, b: &str) -> (r: bool)
    ensures
        r == (a@ == b@),
{
    a.to_owned() == b.to_owned()
}

/// The characters of a string.
pub fn chars_of(s: &str) -> (r: Vec<char>)
    ensures
        r@ == s@,
{
    let mut v: Vec<char> = Vec::new();
    for c in it: s.chars()
        invariant
            v@ == it.seq().take(it.index() as int),
            it.seq() == s@,
    {
        v.push(c);
    }
    v
}

/// The characters that Unicode calls white space.
pub open spec fn is_white(c: char) -> bool {
    let code = c as u32;
    ||| 0x9 <= code <= 0xd
    ||| code == 0x20
    ||| code == 0x85
    ||| code == 0xa0
    ||| code == 0x1680
    ||| 0x2000 <= code <= 0x200a
    ||| code == 0x2028
    ||| code == 0x2029
    ||| code == 0x202f
    ||| code == 0x205f
    ||| code == 0x3000
}

fn is_white_char(c: char) -> (r: bool)
    ensures
        r == is_white(c),
{
    let code: u32 = c as u32;
    (0x9 <= code && code <= 0xd) || code == 0x20 || code == 0x85 || code == 0xa0 || code == 0x1680
        || (0x2000 <= code && code <= 0x200a) || code == 0x2028 || code == 0x2029 || code == 0x202f
        || code == 0x205f || code == 0x3000
}

/// `s` without its leading white space.
pub open spec fn trimmed_start(s: Seq<char>) -> Seq<char>
    decreases s.len(),
{
    if s.len() > 0 && is_white(s[0]) {
        trimmed_start(s.skip(1))
    } else {
        s
    }
}

/// `s` without its trailing white space.
pub open spec fn trimmed_end(s: Seq<char>) -> Seq<char>
    decreases s.len(),
{
    if s.len() > 0 && is_white(s.last()) {
        trimmed_end(s.drop_last())
    } else {
        s
    }
}

/// `s` without white space at either end.
pub open spec fn trimmed(s: Seq<char>) -> Seq<char> {
    trimmed_end(trimmed_start(s))
}

/// The bounds of the part of `chars[from..to]` that has no white space at either
/// end.
pub fn trim_bounds(chars: &Vec<char>, from: usize, to: usize) -> (r: (usize, usize))
    requires
        from <= to <= chars.len(),
    ensures
        from <= r.0 <= r.1 <= to,
        chars@.subrange(r.0 as int, r.1 as int) == trimmed(
            chars@.subrange(from as int, to as int),
        ),
{
    let mut start: usize = from;
    while start < to && is_white_char(chars[start])
        invariant
            from <= start <= to <= chars.len(),
            trimmed_start(chars@.subrange(from as int, to as int)) == trimmed_start(
                chars@.subrange(start as int, to as int),
            ),
        decreases to - start,
    {
        assert(chars@.subrange(start as int, to as int).skip(1) =~= chars@.subrange(
            start + 1,
            to as int,
        ));
        start = start + 1;
    }
    let mut end: usize = to;
    while start < end && is_white_char(chars[end - 1])
        invariant
            from <= start <= end <= to <= chars.len(),
            trimmed_end(chars@.subrange(start as int, to as int)) == trimmed_end(
                chars@.subrange(start as int, end as int),
            ),
        decreases end - start,
    {
        assert(chars@.subrange(start as int, end as int).drop_last() =~= chars@.subrange(
            start as int,
            end - 1,
        ));
        end = end - 1;
    }
    (start, end)
}

/// `s` without white space at either end.
pub fn trim<'a>(s: &'a str) -> (r: &'a str)
    ensures
        r@ == trimmed(s@),
{
    let chars = chars_of(s);
    let (start, end) = trim_bounds(&chars, 0, chars.len());
    assert(chars@.subrange(0, chars.len() as int) =~= s@);
    s.substring_char(start, end)
}

/// The pieces of `s` between the occurrences of `sep`.
pub open spec fn split(s: Seq<char>, sep: char) -> Seq<Seq<char>>
    decreases s.len(),
{
    if s.len() == 0 {
        seq![Seq::empty()]
    } else {
        let before = split(s.drop_last(), sep);
        if s.last() == sep {
            before.push(Seq::empty())
        } else {
            before.drop_last().push(before.last().push(s.last()))
        }
    }
}

/// Whether a text begins with the given one.
pub open spec fn begins_with(text: Seq<char>, start: Seq<char>) -> bool {
    text.len() >= start.len() && text.take(start.len() as int) == start
}

/// Whether a character stands nowhere in a text.
pub open spec fn lacks(s: Seq<char>, c: char) -> bool {
    forall|i: int| 0 <= i < s.len() ==> #[trigger] s[i] != c
}

/// A character that stands in neither of two texts does not stand in both together.
pub proof fn joined_lack(a: Seq<char>, b: Seq<char>, c: char)
    requires
        lacks(a, c),
        lacks(b, c),
    ensures
        lacks(a + b, c),
{
}

/// A text does not occur in one that lacks one of its characters.
pub proof fn absent_by_character(part: Seq<char>, whole: Seq<char>, i: int)
    requires
        0 <= i < part.len(),
        lacks(whole, part[i]),
    ensures
        !occurs(part, whole),
{
    if occurs(part, whole) {
        let k = choose|k: int| occurs_at(part, whole, k);
        assert(whole.subrange(k, k + part.len())[i] == whole[k + i]);
    }
}

proof fn digit_is_its_character(d: int)
    requires
        0 <= d < 10,
    ensures
        digit(d).len() == 1,
        is_digit(digit(d)[0]),
        digit(d)[0] as u32 == '0' as u32 + d,
{
    reveal_strlit("0");
    reveal_strlit("1");
    reveal_strlit("2");
    reveal_strlit("3");
    reveal_strlit("4");
    reveal_strlit("5");
    reveal_strlit("6");
    reveal_strlit("7");
    reveal_strlit("8");
    reveal_strlit("9");
}

/// Decimal notation is made of digits, at least one, and its value is the number.
pub proof fn decimal_is_digits(n: int)
    requires
        0 <= n,
    ensures
        decimal(n).len() >= 1,
        all_digits(decimal(n)),
        digits_value(decimal(n)) == n,
    decreases n,
{
    if n < 10 {
        digit_is_its_character(n);
        assert(decimal(n).drop_last() =~= Seq::<char>::empty());
        assert(digits_value(decimal(n).drop_last()) == 0);
    } else {
        decimal_is_digits(n / 10);
        digit_is_its_character(n % 10);
        assert(decimal(n).drop_last() =~= decimal(n / 10));
    }
}

/// Decimal notation lacks whatever is no digit.
pub proof fn decimal_lacks(n: int, c: char)
    requires
        0 <= n,
        !is_digit(c),
    ensures
        lacks(decimal(n), c),
{
    decimal_is_digits(n);
}

proof fn split_is_never_empty(s: Seq<char>, sep: char)
    ensures
        split(s, sep).len() >= 1,
    decreases s.len(),
{
    if s.len() > 0 {
        split_is_never_empty(s.drop_last(), sep);
    }
}

/// A text without the separator is appended to the last piece.
pub proof fn split_extended(s: Seq<char>, t: Seq<char>, sep: char)
    requires
        lacks(t, sep),
    ensures
        split(s, sep).len() >= 1,
        split(s + t, sep) == split(s, sep).drop_last().push(split(s, sep).last() + t),
    decreases t.len(),
{
    split_is_never_empty(s, sep);
    if t.len() == 0 {
        assert(s + t =~= s);
        assert(split(s, sep).last() + t =~= split(s, sep).last());
        assert(split(s, sep) =~= split(s, sep).drop_last().push(split(s, sep).last()));
    } else {
        let shorter = t.drop_last();
        assert forall|i: int| 0 <= i < shorter.len() implies #[trigger] shorter[i] != sep by {
            assert(shorter[i] == t[i]);
        }
        split_extended(s, shorter, sep);
        assert((s + t).drop_last() =~= s + shorter);
        let before = split(s + shorter, sep);
        assert(before.drop_last() =~= split(s, sep).drop_last());
        assert(before.last().push(t.last()) =~= split(s, sep).last() + t);
    }
}

/// A line that is appended, with its line break, to text that ends in one is one more
/// line.
pub proof fn line_appended(s: Seq<char>, lines: Seq<Seq<char>>, line: Seq<char>)
    requires
        split(s, '\n') == lines.push(Seq::empty()),
        lacks(line, '\n'),
    ensures
        split(s + (line + "\n"@), '\n') == lines.push(line).push(Seq::empty()),
{
    reveal_strlit("\n");
    split_extended(s, line, '\n');
    let whole = s + (line + "\n"@);
    assert(lines.push(Seq::empty()).drop_last() =~= lines);
    assert(Seq::<char>::empty() + line =~= line);
    assert(whole.drop_last() =~= s + line);
    assert(whole.last() == '\n');
}

/// Text after the last line break is the last line.
pub proof fn last_line_appended(s: Seq<char>, lines: Seq<Seq<char>>, line: Seq<char>)
    requires
        split(s, '\n') == lines.push(Seq::empty()),
        lacks(line, '\n'),
    ensures
        split(s + line, '\n') == lines.push(line),
{
    split_extended(s, line, '\n');
    assert(lines.push(Seq::empty()).drop_last() =~= lines);
    assert(Seq::<char>::empty() + line =~= line);
}

/// A letter of the ASCII alphabet in lower case, any other character as it is.
pub open spec fn ascii_lower(c: char) -> char {
    if 'A' <= c <= 'Z' {
        (c as u32 + 32) as char
    } else {
        c
    }
}

/// Whether two texts differ in nothing but the case of ASCII letters.
pub open spec fn same_but_for_case(a: Seq<char>, b: Seq<char>) -> bool {
    a.map_values(|c: char| ascii_lower(c)) == b.map_values(|c: char| ascii_lower(c))
}

/// The code of `c` once an ASCII letter is in lower case.
fn lower_code(c: char) -> (r: u32)
    ensures
        r == ascii_lower(c) as u32,
{
    let code: u32 = c as u32;
    if 65 <= code && code <= 90 {
        code + 32
    } else {
        code
    }
}

/// Whether two texts differ in nothing but the case of ASCII letters.
pub fn same_text_but_for_case(a: &str, b: &str) -> (r: bool)
    ensures
        r == same_but_for_case(a@, b@),
{
    let left = chars_of(a);
    let right = chars_of(b);
    let ghost low = |c: char| ascii_lower(c);
    if left.len() != right.len() {
        assert(a@.map_values(low).len() != b@.map_values(low).len());
        return false;
    }
    let mut i: usize = 0;
    while i < left.len()
        invariant
            left@ == a@,
            right@ == b@,
            left.len() == right.len(),
            i <= left.len(),
            low == (|c: char| ascii_lower(c)),
            forall|j: int| 0 <= j < i ==> low(a@[j]) == low(#[trigger] b@[j]),
        decreases left.len() - i,
    {
        if lower_code(left[i]) != lower_code(right[i]) {
            assert(a@.map_values(low)[i as int] != b@.map_values(low)[i as int]);
            return false;
        }
        i = i + 1;
    }
    assert(a@.map_values(low) =~= b@.map_values(low));
    true
}

/// What `str::to_lowercase` makes of a text: lower case by the tables of Unicode,
/// special mappings included.
pub uninterp spec fn unicode_lowercase(s: Seq<char>) -> Seq<char>;

/// `str::to_lowercase`. Of a text without non-ASCII characters the result is stated:
/// each ASCII capital becomes its small letter and nothing else changes. Of other
/// texts only that the result depends on the text alone.
#[verifier::external_body]
pub(crate) fn lowercase(s: &str) -> (r: String)
    ensures
        r@ == unicode_lowercase(s@),
        vstd::utf8::is_ascii_chars(s@) ==> r@ == s@.map_values(|c: char| ascii_lower(c)),
{
    s.to_lowercase()
}

/// The `Debug` rendering of a text: quoted, with special characters escaped.
pub uninterp spec fn debug_text(s: Seq<char>) -> Seq<char>;

/// The `Debug` formatting of `str`: the rendering depends on the text alone.
#[verifier::external_body]
pub(crate) fn debug(s: &str) -> (r: String)
    ensures
        r@ == debug_text(s@),
{
    format!("{:?}", s)
}

/// The value of a text of decimal digits, the most significant first.
pub open spec fn digits_value(s: Seq<char>) -> int
    decreases s.len(),
{
    if s.len() == 0 {
        0
    } else {
        10 * digits_value(s.drop_last()) + (s.last() as u32 - '0' as u32)
    }
}

pub open spec fn is_digit(c: char) -> bool {
    '0' <= c <= '9'
}

pub open spec fn all_digits(s: Seq<char>) -> bool {
    forall|i: int| 0 <= i < s.len() ==> is_digit(#[trigger] s[i])
}

/// A text without its leading `+`, if it has one.
pub open spec fn without_plus(s: Seq<char>) -> Seq<char> {
    if s.len() > 0 && s[0] == '+' {
        s.skip(1)
    } else {
        s
    }
}

/// The number that a text denotes: an optional `+`, then at least one decimal digit
/// and nothing else. Nothing if it cannot be represented.
pub open spec fn number(s: Seq<char>) -> Option<int> {
    let digits = without_plus(s);
    if digits.len() > 0 && all_digits(digits) && digits_value(digits) <= usize::MAX {
        Some(digits_value(digits))
    } else {
        None
    }
}

proof fn digits_value_grows(s: Seq<char>, k: int)
    requires
        0 <= k <= s.len(),
        all_digits(s),
    ensures
        0 <= digits_value(s.take(k)) <= digits_value(s),
    decreases s.len(),
{
    if s.len() > 0 {
        if k == s.len() {
            assert(s.take(k) =~= s);
            digits_value_grows(s.drop_last(), k - 1);
        } else {
            assert(s.drop_last().take(k) =~= s.take(k));
            digits_value_grows(s.drop_last(), k);
        }
    } else {
        assert(s.take(k) =~= s);
    }
}

/// Parse a decimal number.
pub fn parse_number(s: &str) -> (r: Option<usize>)
    ensures
        r matches Some(n) ==> number(s@) == Some(n as int),
        r is None ==> number(s@) is None,
{
    let chars = chars_of(s);
    let start: usize = if chars.len() > 0 && chars[0] == '+' {
        1
    } else {
        0
    };
    let ghost digits = without_plus(s@);
    assert(s@.skip(0) =~= s@);
    if start == chars.len() {
        return None;
    }
    let mut value: usize = 0;
    let mut i: usize = start;
    assert(digits.take(0) =~= Seq::<char>::empty());
    while i < chars.len()
        invariant
            chars@ == s@,
            start <= i <= chars.len(),
            digits == s@.skip(start as int),
            digits == without_plus(s@),
            forall|k: int| 0 <= k < i - start ==> is_digit(#[trigger] digits[k]),
            value == digits_value(digits.take(i - start)),
        decreases chars.len() - i,
    {
        let c: char = chars[i];
        assert(digits[i - start] == c);
        assert(digits.take(i - start + 1).drop_last() =~= digits.take(i - start));
        if c < '0' || c > '9' {
            return None;
        }
        let digit: usize = (c as u32 - '0' as u32) as usize;
        proof {
            if number(s@) is Some {
                digits_value_grows(digits, i - start + 1);
            }
        }
        match value.checked_mul(10) {
            None => {
                return None;
            },
            Some(scaled) => match scaled.checked_add(digit) {
                None => {
                    return None;
                },
                Some(sum) => {
                    value = sum;
                },
            },
        }
        i = i + 1;
    }
    assert(digits.take(digits.len() as int) =~= digits);
    Some(value)
}

/// A text of digits with something else behind it, or nothing, is read in one way: the
/// number and the rest are determined.
pub proof fn a_leading_number_is_unique(a: int, x: Seq<char>, b: int, y: Seq<char>)
    requires
        0 <= a,
        0 <= b,
        decimal(a) + x == decimal(b) + y,
        x.len() == 0 || !is_digit(x[0]),
        y.len() == 0 || !is_digit(y[0]),
    ensures
        a == b,
        x == y,
{
    decimal_is_digits(a);
    decimal_is_digits(b);
    let (s, t) = (decimal(a), decimal(b));
    let whole = s + x;
    if s.len() < t.len() {
        assert(whole[s.len() as int] == t[s.len() as int]);
        assert(whole[s.len() as int] == x[0]);
    }
    if t.len() < s.len() {
        assert((t + y)[t.len() as int] == s[t.len() as int]);
        assert((t + y)[t.len() as int] == y[0]);
    }
    assert(s =~= whole.take(s.len() as int));
    assert(t =~= (t + y).take(t.len() as int));
    assert(x =~= whole.skip(s.len() as int));
    assert(y =~= (t + y).skip(t.len() as int));
}

/// A number is written without leading zeros, and in one way only: a text of digits that
/// does not begin with a zero, or is a single digit, is the decimal notation of its value.
pub proof fn decimal_notation_is_the_shortest(s: Seq<char>)
    requires
        s.len() >= 1,
        all_digits(s),
        s.len() == 1 || s[0] != '0',
    ensures
        digits_value(s) >= 0,
        s[0] != '0' ==> digits_value(s) >= 1,
        decimal(digits_value(s)) == s,
    decreases s.len(),
{
    let last = s.last() as u32 - '0' as u32;
    assert(is_digit(s.last()));
    digit_is_its_character(last);
    if s.len() == 1 {
        assert(s.drop_last() =~= Seq::<char>::empty());
        assert(digits_value(s.drop_last()) == 0);
        assert(digits_value(s) == last);
        assert(decimal(last) =~= s);
    } else {
        let front = s.drop_last();
        assert forall|i: int| 0 <= i < front.len() implies is_digit(#[trigger] front[i]) by {
            assert(front[i] == s[i]);
        }
        decimal_notation_is_the_shortest(front);
        let v = digits_value(front);
        assert(digits_value(s) == 10 * v + last);
        assert((10 * v + last) / 10 == v && (10 * v + last) % 10 == last);
        assert(decimal(digits_value(s)) =~= s);
    }
}

/// What is read as a number: a text of digits, with a plus sign before it or not, whatever
/// number of zeros it begins with, as long as the number can be represented, and nothing
/// else.
pub proof fn numbers_are_read_back(n: int, zeros: nat)
    requires
        0 <= n,
    ensures
        ({
            let digits = Seq::new(zeros, |i: int| '0') + decimal(n);
            &&& n <= usize::MAX ==> number(digits) == Some(n) && number(seq!['+'] + digits) == Some(
                n,
            )
            &&& n > usize::MAX ==> number(digits) is None && number(seq!['+'] + digits) is None
        }),
{
    let front = Seq::new(zeros, |i: int| '0');
    let digits = front + decimal(n);
    decimal_is_digits(n);
    leading_zeros_add_nothing(zeros, decimal(n));
    assert(all_digits(digits)) by {
        assert forall|i: int| 0 <= i < digits.len() implies is_digit(#[trigger] digits[i]) by {
            if i >= zeros {
                assert(digits[i] == decimal(n)[i - zeros]);
            }
        }
    }
    assert(is_digit(digits[0]));
    assert(without_plus(digits) == digits);
    let signed = seq!['+'] + digits;
    assert(signed.skip(1) =~= digits);
}

proof fn leading_zeros_add_nothing(zeros: nat, s: Seq<char>)
    requires
        all_digits(s),
    ensures
        digits_value(Seq::new(zeros, |i: int| '0') + s) == digits_value(s),
    decreases zeros + s.len(),
{
    let front = Seq::new(zeros, |i: int| '0');
    let whole = front + s;
    if s.len() > 0 {
        assert(whole.drop_last() =~= front + s.drop_last());
        assert forall|i: int| 0 <= i < s.drop_last().len() implies is_digit(
            #[trigger] s.drop_last()[i],
        ) by {
            assert(s.drop_last()[i] == s[i]);
        }
        leading_zeros_add_nothing(zeros, s.drop_last());
    } else if zeros > 0 {
        let less = Seq::new((zeros - 1) as nat, |i: int| '0');
        assert(whole.drop_last() =~= less + s);
        leading_zeros_add_nothing((zeros - 1) as nat, s);
    } else {
        assert(whole =~= s);
    }
}

/// A text that is read as a number holds nothing but digits, at least one, and perhaps a
/// plus sign before them, and the number can be represented.
pub proof fn only_digits_are_numbers(s: Seq<char>)
    ensures
        number(s) matches Some(n) ==> {
            let first = if s.len() > 0 && s[0] == '+' {
                1int
            } else {
                0
            };
            &&& first < s.len()
            &&& forall|i: int| first <= i < s.len() ==> '0' <= #[trigger] s[i] <= '9'
            &&& 0 <= n <= usize::MAX
            &&& n == digits_value(s.skip(first))
        },
{
    if number(s) is Some {
        let digits = without_plus(s);
        let first = if s.len() > 0 && s[0] == '+' {
            1int
        } else {
            0
        };
        assert(s.skip(0) =~= s);
        assert(digits =~= s.skip(first));
        assert forall|i: int| first <= i < s.len() implies '0' <= #[trigger] s[i] <= '9' by {
            assert(is_digit(digits[i - first]));
        }
        digits_value_grows(digits, 0);
        assert(digits.take(0) =~= Seq::<char>::empty());
    }
}

/// Trimming takes white space away from both ends, all of it, and nothing else.
pub proof fn trimming_takes_white_space_off_the_ends(s: Seq<char>)
    ensures
        exists|from: int, to: int|
            0 <= from <= to <= s.len() && trimmed(s) == #[trigger] s.subrange(from, to) && (
            forall|i: int| 0 <= i < from ==> is_white(#[trigger] s[i])) && (forall|i: int|
                to <= i < s.len() ==> is_white(#[trigger] s[i])) && (from < to ==> !is_white(
                s[from],
            ) && !is_white(s[to - 1])),
{
    let from = trimmed_start_at(s);
    let rest = s.skip(from);
    let kept = trimmed_end_at(rest);
    let to = from + kept;
    assert(rest.take(kept) =~= s.subrange(from, to));
    assert forall|i: int| to <= i < s.len() implies is_white(#[trigger] s[i]) by {
        assert(s[i] == rest[i - from]);
    }
    if from < to {
        assert(s[to - 1] == rest[kept - 1]);
        assert(s[from] == rest[0]);
    }
}

proof fn trimmed_start_at(s: Seq<char>) -> (from: int)
    ensures
        0 <= from <= s.len(),
        trimmed_start(s) == s.skip(from),
        forall|i: int| 0 <= i < from ==> is_white(#[trigger] s[i]),
        from < s.len() ==> !is_white(s[from]),
    decreases s.len(),
{
    if s.len() > 0 && is_white(s[0]) {
        let rest = s.skip(1);
        let from = trimmed_start_at(rest);
        assert(rest.skip(from) =~= s.skip(from + 1));
        assert forall|i: int| 0 <= i < from + 1 implies is_white(#[trigger] s[i]) by {
            if i > 0 {
                assert(s[i] == rest[i - 1]);
            }
        }
        if from < rest.len() {
            assert(rest[from] == s[from + 1]);
        }
        from + 1
    } else {
        assert(s.skip(0) =~= s);
        0
    }
}

proof fn trimmed_end_at(s: Seq<char>) -> (to: int)
    ensures
        0 <= to <= s.len(),
        trimmed_end(s) == s.take(to),
        forall|i: int| to <= i < s.len() ==> is_white(#[trigger] s[i]),
        to > 0 ==> !is_white(s[to - 1]),
    decreases s.len(),
{
    if s.len() > 0 && is_white(s.last()) {
        let rest = s.drop_last();
        let to = trimmed_end_at(rest);
        assert(rest.take(to) =~= s.take(to));
        assert forall|i: int| to <= i < s.len() implies is_white(#[trigger] s[i]) by {
            if i < rest.len() {
                assert(s[i] == rest[i]);
            }
        }
        if to > 0 {
            assert(rest[to - 1] == s[to - 1]);
        }
        to
    } else {
        assert(s.take(s.len() as int) =~= s);
        s.len() as int
    }
}

/// White space is the blank, the controls from the tabulator to the carriage return, the
/// next-line control, and the spaces and separators of Unicode: twenty-five characters.
pub proof fn white_space_is_what_unicode_calls_so(c: char)
    ensures
        is_white(c) <==> seq![
            0x9u32,
            0xa,
            0xb,
            0xc,
            0xd,
            0x20,
            0x85,
            0xa0,
            0x1680,
            0x2000,
            0x2001,
            0x2002,
            0x2003,
            0x2004,
            0x2005,
            0x2006,
            0x2007,
            0x2008,
            0x2009,
            0x200a,
            0x2028,
            0x2029,
            0x202f,
            0x205f,
            0x3000,
        ].contains(c as u32),
{
    let all = seq![
        0x9u32,
        0xa,
        0xb,
        0xc,
        0xd,
        0x20,
        0x85,
        0xa0,
        0x1680,
        0x2000,
        0x2001,
        0x2002,
        0x2003,
        0x2004,
        0x2005,
        0x2006,
        0x2007,
        0x2008,
        0x2009,
        0x200a,
        0x2028,
        0x2029,
        0x202f,
        0x205f,
        0x3000,
    ];
    let code = c as u32;
    let i: int = if code <= 0xd {
        code - 0x9
    } else if code == 0x20 {
        5
    } else if code == 0x85 {
        6
    } else if code == 0xa0 {
        7
    } else if code == 0x1680 {
        8
    } else if code <= 0x200a {
        code - 0x2000 + 9
    } else if code == 0x2028 {
        20
    } else if code == 0x2029 {
        21
    } else if code == 0x202f {
        22
    } else if code == 0x205f {
        23
    } else {
        24
    };
    if is_white(c) {
        assert(0 <= i < all.len());
        assert(all[i] == code);
    }
}

/// Pieces put together again, with the separator between each two.
pub open spec fn rejoined(pieces: Seq<Seq<char>>, sep: char) -> Seq<char>
    decreases pieces.len(),
{
    if pieces.len() == 0 {
        Seq::empty()
    } else if pieces.len() == 1 {
        pieces[0]
    } else {
        rejoined(pieces.drop_last(), sep).push(sep) + pieces.last()
    }
}

/// Splitting takes a text apart at every separator and nowhere else: no piece holds the
/// separator, and the pieces put together again are the text.
pub proof fn pieces_can_be_put_together(s: Seq<char>, sep: char)
    ensures
        split(s, sep).len() >= 1,
        rejoined(split(s, sep), sep) == s,
        forall|i: int| 0 <= i < split(s, sep).len() ==> lacks(#[trigger] split(s, sep)[i], sep),
    decreases s.len(),
{
    let pieces = split(s, sep);
    if s.len() > 0 {
        pieces_can_be_put_together(s.drop_last(), sep);
        let before = split(s.drop_last(), sep);
        assert(s.drop_last().push(s.last()) =~= s);
        if s.last() == sep {
            assert(pieces.drop_last() =~= before);
            assert(rejoined(pieces, sep) =~= s);
            assert forall|i: int| 0 <= i < pieces.len() implies lacks(
                #[trigger] pieces[i],
                sep,
            ) by {
                if i < before.len() {
                    assert(pieces[i] == before[i]);
                }
            }
        } else {
            let front = before.drop_last();
            assert(pieces.drop_last() =~= front);
            assert(before.last() == before[before.len() - 1]);
            assert(lacks(before.last(), sep));
            assert forall|i: int| 0 <= i < pieces.len() implies lacks(
                #[trigger] pieces[i],
                sep,
            ) by {
                if i < front.len() {
                    assert(pieces[i] == before[i]);
                } else {
                    assert(pieces[i] == before.last().push(s.last()));
                }
            }
            assert(rejoined(pieces, sep) =~= s);
        }
    }
}

/// Splitting two texts with a separator between them gives the pieces of the first,
/// followed by those of the second.
pub proof fn pieces_of_joined_texts(a: Seq<char>, b: Seq<char>, sep: char)
    ensures
        split(a.push(sep) + b, sep) == split(a, sep) + split(b, sep),
    decreases b.len(),
{
    let whole = a.push(sep) + b;
    split_is_never_empty(b, sep);
    if b.len() == 0 {
        assert(whole =~= a.push(sep));
        assert(whole.drop_last() =~= a);
        assert(split(whole, sep) =~= split(a, sep) + split(b, sep));
    } else {
        pieces_of_joined_texts(a, b.drop_last(), sep);
        split_is_never_empty(b.drop_last(), sep);
        assert(whole.drop_last() =~= a.push(sep) + b.drop_last());
        assert(split(whole, sep) =~= split(a, sep) + split(b, sep));
    }
}

/// Lower case changes the capital letters of the ASCII alphabet, each to the small letter
/// that stands 32 places after it, and no other character.
pub proof fn lower_case_changes_capitals_alone(c: char)
    ensures
        'A' <= c <= 'Z' ==> 'a' <= ascii_lower(c) <= 'z' && ascii_lower(c) as u32 == c as u32
            + 32,
        !('A' <= c <= 'Z') ==> ascii_lower(c) == c,
        ascii_lower(ascii_lower(c)) == ascii_lower(c),
{
}

/// Two texts are the same but for case exactly when they are of one length and hold, in
/// each place, the same character or a letter and its capital.
pub proof fn case_is_all_that_may_differ(a: Seq<char>, b: Seq<char>)
    ensures
        same_but_for_case(a, b) <==> a.len() == b.len() && forall|i: int|
            0 <= i < a.len() ==> {
                ||| #[trigger] a[i] == b[i]
                ||| 'A' <= a[i] <= 'Z' && b[i] as u32 == a[i] as u32 + 32
                ||| 'A' <= b[i] <= 'Z' && a[i] as u32 == b[i] as u32 + 32
            },
{
    let low = |c: char| ascii_lower(c);
    let (x, y) = (a.map_values(low), b.map_values(low));
    if same_but_for_case(a, b) {
        assert(x == y);
        assert(x.len() == a.len());
        assert forall|i: int| 0 <= i < a.len() implies {
            ||| #[trigger] a[i] == b[i]
            ||| 'A' <= a[i] <= 'Z' && b[i] as u32 == a[i] as u32 + 32
            ||| 'A' <= b[i] <= 'Z' && a[i] as u32 == b[i] as u32 + 32
        } by {
            assert(x[i] == y[i]);
            assert(ascii_lower(a[i]) == ascii_lower(b[i]));
            assert(ascii_lower(a[i]) as u32 == ascii_lower(b[i]) as u32);
        }
    }
    if a.len() == b.len() && forall|i: int|
        0 <= i < a.len() ==> {
            ||| #[trigger] a[i] == b[i]
            ||| 'A' <= a[i] <= 'Z' && b[i] as u32 == a[i] as u32 + 32
            ||| 'A' <= b[i] <= 'Z' && a[i] as u32 == b[i] as u32 + 32
        } {
        assert(x =~= y);
    }
}

/// What it is to begin with a text, to hold a text and to lack a character: a text begins
/// with another if it is that one and some rest; it holds another if it is that one with
/// something before and after it; and it lacks a character that it does not hold.
pub proof fn parts_of_a_text(whole: Seq<char>, part: Seq<char>, c: char)
    ensures
        begins_with(whole, part) <==> exists|rest: Seq<char>| whole == #[trigger] (part + rest),
        occurs(part, whole) <==> exists|before: Seq<char>, after: Seq<char>|
            whole == #[trigger] (before + part + after),
        lacks(whole, c) <==> !whole.contains(c),
{
    if begins_with(whole, part) {
        assert(whole =~= part + whole.skip(part.len() as int));
    }
    if exists|rest: Seq<char>| whole == #[trigger] (part + rest) {
        let rest = choose|rest: Seq<char>| whole == #[trigger] (part + rest);
        assert((part + rest).take(part.len() as int) =~= part);
    }
    if occurs(part, whole) {
        let k = choose|k: int| occurs_at(part, whole, k);
        let (before, after) = (whole.take(k), whole.skip(k + part.len()));
        assert(before + part + after =~= whole) by {
            assert(whole.subrange(k, k + part.len()) == part);
            assert forall|i: int| 0 <= i < whole.len() implies (before + part + after)[i]
                == whole[i] by {
                if k <= i < k + part.len() {
                    assert(whole.subrange(k, k + part.len())[i - k] == whole[i]);
                }
            }
        }
    }
    if exists|before: Seq<char>, after: Seq<char>| whole == #[trigger] (before + part + after) {
        let (before, after) = choose|before: Seq<char>, after: Seq<char>|
            whole == #[trigger] (before + part + after);
        occurs_at_the_end(before, part);
        occurs_in_longer(part, before + part, after);
    }
    if lacks(whole, c) && whole.contains(c) {
        let i = whole.index_of(c);
        assert(whole[i] == c);
    }
    if !whole.contains(c) {
        assert forall|i: int| 0 <= i < whole.len() implies #[trigger] whole[i] != c by {}
    }
}

} // verus!
