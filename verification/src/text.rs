//! Text: trimming, decimal numbers and the small string tools the readers share.
use vstd::prelude::*;

verus! {

broadcast use vstd::string::group_string_axioms;

/// The characters with the Unicode property `White_Space`.
pub open spec fn is_white_space(c: char) -> bool {
    ||| '\u{9}' <= c <= '\u{d}'
    ||| c == '\u{20}'
    ||| c == '\u{85}'
    ||| c == '\u{a0}'
    ||| c == '\u{1680}'
    ||| '\u{2000}' <= c <= '\u{200a}'
    ||| c == '\u{2028}'
    ||| c == '\u{2029}'
    ||| c == '\u{202f}'
    ||| c == '\u{205f}'
    ||| c == '\u{3000}'
}

/// `s` without the white space it starts with.
pub open spec fn trimmed_start(s: Seq<char>) -> Seq<char>
    decreases s.len(),
{
    if s.len() > 0 && is_white_space(s.first()) {
        trimmed_start(s.drop_first())
    } else {
        s
    }
}

/// `s` without the white space it ends with.
pub open spec fn trimmed_end(s: Seq<char>) -> Seq<char>
    decreases s.len(),
{
    if s.len() > 0 && is_white_space(s.last()) {
        trimmed_end(s.drop_last())
    } else {
        s
    }
}

/// `s` without the white space on both ends.
pub open spec fn trimmed(s: Seq<char>) -> Seq<char> {
    trimmed_end(trimmed_start(s))
}

/// `str::trim`: white space, as Unicode defines it, goes from both ends and nothing else does.
pub assume_specification[ str::trim ](s: &str) -> (r: &str)
    ensures
        r@ == trimmed(s@),
;

/// `String::push`: the character is appended.
pub assume_specification[ String::push ](s: &mut String, c: char)
    ensures
        final(s)@ == old(s)@.push(c),
;

/// The ASCII lower case of one character; other characters stay.
pub open spec fn ascii_lower_char(c: char) -> char {
    if 'A' <= c <= 'Z' {
        (c as u8 + 32) as char
    } else {
        c
    }
}

/// The ASCII lower case of a text.
pub open spec fn ascii_lower(s: Seq<char>) -> Seq<char> {
    s.map_values(|c: char| ascii_lower_char(c))
}

/// `str::eq_ignore_ascii_case`: the two texts have the same ASCII lower case.
pub assume_specification[ str::eq_ignore_ascii_case ](s: &str, other: &str) -> (r: bool)
    ensures
        r == (ascii_lower(s@) == ascii_lower(other@)),
;

/// The characters of a text.
pub fn chars_of(s: &str) -> (r: Vec<char>)
    ensures
        r@ == s@,
{
    let mut r: Vec<char> = Vec::new();
    for c in it: s.chars()
        invariant
            it.seq() == s@,
            r@ == s@.take(it.index()),
    {
        r.push(c);
        assert(s@.take(it.index() + 1) =~= s@.take(it.index()).push(c));
    }
    assert(s@.take(s@.len() as int) =~= s@);
    r
}

/// The text made of the characters `from..to` of `chars`.
pub fn text_of(chars: &Vec<char>, from: usize, to: usize) -> (r: String)
    requires
        from <= to <= chars@.len(),
    ensures
        r@ == chars@.subrange(from as int, to as int),
{
    let mut r = String::new();
    let mut i: usize = from;
    while i < to
        invariant
            from <= i <= to <= chars@.len(),
            r@ == chars@.subrange(from as int, i as int),
        decreases to - i,
    {
        r.push(chars[i]);
        i = i + 1;
        assert(chars@.subrange(from as int, i as int) =~= chars@.subrange(from as int, i - 1).push(chars@[i - 1]));
    }
    r
}

// Whole numbers.

pub open spec fn is_digit(c: char) -> bool {
    '0' <= c <= '9'
}

pub open spec fn all_digits(s: Seq<char>) -> bool {
    forall|i: int| 0 <= i < s.len() ==> is_digit(#[trigger] s[i])
}

/// The number that a run of decimal digits stands for.
pub open spec fn digits_value(s: Seq<char>) -> nat
    decreases s.len(),
{
    if s.len() == 0 {
        0
    } else {
        10 * digits_value(s.drop_last()) + (s.last() as nat - '0' as nat) as nat
    }
}

pub open spec fn has_sign(s: Seq<char>) -> bool {
    s.len() > 0 && (s[0] == '+' || s[0] == '-')
}

/// `s` without the sign it may start with.
pub open spec fn unsigned(s: Seq<char>) -> Seq<char> {
    if has_sign(s) {
        s.skip(1)
    } else {
        s
    }
}

/// The number that an optional sign and one or more digits stand for.
pub open spec fn signed_value(s: Seq<char>) -> int {
    if s.len() > 0 && s[0] == '-' {
        -(digits_value(unsigned(s)) as int)
    } else {
        digits_value(unsigned(s)) as int
    }
}

/// The `i64` that a text reads as: an optional sign, one or more decimal digits, nothing else, and
/// a value in range.
pub open spec fn int_of_text(s: Seq<char>) -> Option<i64> {
    if unsigned(s).len() > 0 && all_digits(unsigned(s)) && i64::MIN <= signed_value(s) <= i64::MAX {
        Some(signed_value(s) as i64)
    } else {
        None
    }
}

/// Reads a whole number, as `str::parse::<i64>` does.
pub fn parse_int(s: &str) -> (r: Option<i64>)
    ensures
        r == int_of_text(s@),
{
    let chars = chars_of(s);
    let n: usize = chars.len();
    let negative: bool = n > 0 && chars[0] == '-';
    let start: usize = if n > 0 && (chars[0] == '+' || chars[0] == '-') {
        1
    } else {
        0
    };
    let ghost body = unsigned(s@);
    assert(body =~= s@.subrange(start as int, n as int));
    if start == n {
        return None;
    }
    // Beyond the limit the value cannot be an `i64` whatever follows, and `value` stays put.
    let limit: i128 = 0x1_0000_0000_0000_0000;
    let mut value: i128 = 0;
    let mut i: usize = start;
    while i < n
        invariant
            start <= i <= n,
            n == chars@.len(),
            chars@ == s@,
            body == s@.subrange(start as int, n as int),
            body == unsigned(s@),
            limit == 0x1_0000_0000_0000_0000,
            0 <= value <= 20 * limit,
            all_digits(body.take(i - start)),
            value <= limit ==> value == digits_value(body.take(i - start)),
            value > limit ==> digits_value(body.take(i - start)) > limit,
        decreases n - i,
    {
        let c = chars[i];
        let ghost k = i - start;
        assert(body.take(k + 1).drop_last() =~= body.take(k));
        assert(body[k] == c);
        if c < '0' || c > '9' {
            assert(!is_digit(body[k]));
            return None;
        }
        let d: i128 = (c as u32 - '0' as u32) as i128;
        if value <= limit {
            value = value * 10 + d;
        }
        assert(all_digits(body.take(k + 1))) by {
            assert forall|j: int| 0 <= j < k + 1 implies is_digit(#[trigger] body.take(k + 1)[j]) by {
                if j < k {
                    assert(is_digit(body.take(k)[j]));
                }
            }
        }
        i = i + 1;
    }
    assert(body.take(n - start) =~= body);
    let signed: i128 = if negative {
        -value
    } else {
        value
    };
    if -0x8000_0000_0000_0000 <= signed && signed <= 0x7fff_ffff_ffff_ffff {
        Some(signed as i64)
    } else {
        None
    }
}

pub open spec fn digit_char(d: nat) -> char {
    ('0' as nat + d) as char
}

/// The decimal digits of a number, without leading zeros.
pub open spec fn decimal(n: nat) -> Seq<char>
    decreases n,
{
    if n < 10 {
        seq![digit_char(n)]
    } else {
        decimal(n / 10).push(digit_char(n % 10))
    }
}

/// Writes a number in decimal.
pub fn decimal_text(n: u64) -> (r: String)
    ensures
        r@ == decimal(n as nat),
    decreases n,
{
    let mut r = if n < 10 {
        String::new()
    } else {
        decimal_text(n / 10)
    };
    let d: u8 = (n % 10) as u8;
    r.push((48 + d) as char);
    assert(r@ =~= decimal(n as nat));
    r
}

/// The decimal text of a whole number, with a minus sign where it is negative.
pub open spec fn int_text(i: int) -> Seq<char> {
    if i < 0 {
        seq!['-'] + decimal((-i) as nat)
    } else {
        decimal(i as nat)
    }
}

/// Writes a whole number in decimal.
pub fn int_to_text(i: i64) -> (r: String)
    ensures
        r@ == int_text(i as int),
{
    if i < 0 {
        let mut r = String::new();
        r.push('-');
        let magnitude: u64 = (-(i as i128)) as u64;
        r.append(decimal_text(magnitude).as_str());
        assert(r@ =~= int_text(i as int));
        r
    } else {
        decimal_text(i as u64)
    }
}

/// At least two decimal digits, with a leading zero where one is needed.
pub open spec fn two_digits(n: nat) -> Seq<char> {
    if n < 10 {
        seq!['0'] + decimal(n)
    } else {
        decimal(n)
    }
}

/// A date as year, month and day, the last two with at least two digits.
pub open spec fn date_text(year: u32, month: u32, day: u32) -> Seq<char> {
    decimal(year as nat) + seq!['-'] + two_digits(month as nat) + seq!['-'] + two_digits(day as nat)
}

/// Appends at least two decimal digits.
fn push_two_digits(s: &mut String, n: u32)
    ensures
        final(s)@ == old(s)@ + two_digits(n as nat),
{
    if n < 10 {
        s.push('0');
    }
    s.append(decimal_text(n as u64).as_str());
    assert(s@ =~= old(s)@ + two_digits(n as nat));
}

/// Writes a date.
pub fn date_to_text(year: u32, month: u32, day: u32) -> (r: String)
    ensures
        r@ == date_text(year, month, day),
{
    let mut r = decimal_text(year as u64);
    r.push('-');
    push_two_digits(&mut r, month);
    r.push('-');
    push_two_digits(&mut r, day);
    assert(r@ =~= date_text(year, month, day));
    r
}

/// `s` without the quotation marks it starts with.
pub open spec fn unquoted_start(s: Seq<char>) -> Seq<char>
    decreases s.len(),
{
    if s.len() > 0 && s.first() == '"' {
        unquoted_start(s.drop_first())
    } else {
        s
    }
}

/// `s` without the quotation marks it ends with.
pub open spec fn unquoted_end(s: Seq<char>) -> Seq<char>
    decreases s.len(),
{
    if s.len() > 0 && s.last() == '"' {
        unquoted_end(s.drop_last())
    } else {
        s
    }
}

/// `s` without the quotation marks on both ends, however many there are.
pub open spec fn unquoted(s: Seq<char>) -> Seq<char> {
    unquoted_end(unquoted_start(s))
}

/// Takes the quotation marks off both ends of a text.
pub fn unquote(s: &str) -> (r: String)
    ensures
        r@ == unquoted(s@),
{
    let chars = chars_of(s);
    let n: usize = chars.len();
    let mut from: usize = 0;
    assert(s@.subrange(0, n as int) =~= s@);
    while from < n && chars[from] == '"'
        invariant
            from <= n,
            n == chars@.len(),
            chars@ == s@,
            unquoted_start(s@.subrange(from as int, n as int)) == unquoted_start(s@),
        decreases n - from,
    {
        assert(s@.subrange(from as int, n as int).drop_first() =~= s@.subrange(from + 1, n as int));
        from = from + 1;
    }
    let ghost tail = s@.subrange(from as int, n as int);
    assert(unquoted_start(s@) == tail);
    let mut to: usize = n;
    while to > from && chars[to - 1] == '"'
        invariant
            from <= to <= n,
            n == chars@.len(),
            chars@ == s@,
            unquoted_end(s@.subrange(from as int, to as int)) == unquoted_end(tail),
        decreases to,
    {
        assert(s@.subrange(from as int, to as int).drop_last() =~= s@.subrange(from as int, to - 1));
        to = to - 1;
    }
    text_of(&chars, from, to)
}

// Laws.

/// What starts with no white space loses nothing at its start.
proof fn lemma_trimmed_start_fixed(s: Seq<char>)
    ensures
        trimmed_start(s).len() > 0 ==> !is_white_space(trimmed_start(s)[0]),
    decreases s.len(),
{
    if s.len() > 0 && is_white_space(s.first()) {
        lemma_trimmed_start_fixed(s.drop_first());
    }
}

/// Trimming the end leaves a start of the text that ends in no white space.
proof fn lemma_trimmed_end_fixed(s: Seq<char>)
    ensures
        trimmed_end(s).len() <= s.len(),
        trimmed_end(s) == s.take(trimmed_end(s).len() as int),
        trimmed_end(s).len() > 0 ==> !is_white_space(trimmed_end(s).last()),
    decreases s.len(),
{
    if s.len() > 0 && is_white_space(s.last()) {
        lemma_trimmed_end_fixed(s.drop_last());
        assert(s.drop_last().take(trimmed_end(s).len() as int) =~= s.take(trimmed_end(s).len() as int));
    } else {
        assert(s.take(s.len() as int) =~= s);
    }
}

/// A trimmed text neither starts nor ends with white space, and trimming it again changes nothing.
pub proof fn trimming_twice_is_trimming_once(s: Seq<char>)
    ensures
        trimmed(trimmed(s)) == trimmed(s),
        trimmed(s).len() > 0 ==> !is_white_space(trimmed(s).first()) && !is_white_space(trimmed(s).last()),
{
    lemma_trimmed_start_fixed(s);
    lemma_trimmed_end_fixed(trimmed_start(s));
    let t = trimmed(s);
    if t.len() > 0 {
        assert(t[0] == trimmed_start(s)[0]);
        assert(trimmed_start(t) == t);
        assert(trimmed_end(t) == t);
    }
}

/// Digits read back as the number they were written for.
pub proof fn decimals_read_back(n: nat)
    ensures
        digits_value(decimal(n)) == n,
        all_digits(decimal(n)),
        decimal(n).len() > 0,
    decreases n,
{
    if n < 10 {
        let d = decimal(n);
        assert(d =~= seq![digit_char(n)]);
        assert(d.drop_last() =~= Seq::empty());
        assert(digits_value(d.drop_last()) == 0);
    } else {
        decimals_read_back(n / 10);
        let front = decimal(n / 10);
        let d = decimal(n);
        assert(d == front.push(digit_char(n % 10)));
        assert(d.drop_last() =~= front);
        assert forall|i: int| 0 <= i < d.len() implies is_digit(#[trigger] d[i]) by {
            if i < front.len() {
                assert(is_digit(front[i]));
            }
        }
    }
}

/// A whole number that is written out reads back as itself.
pub proof fn whole_numbers_read_back(i: i64)
    ensures
        int_of_text(int_text(i as int)) == Some(i),
        trimmed(int_text(i as int)) == int_text(i as int),
{
    let t = int_text(i as int);
    if i < 0 {
        let body = decimal((-(i as int)) as nat);
        decimals_read_back((-(i as int)) as nat);
        assert(t[0] == '-');
        assert(unsigned(t) =~= body);
        assert(t.last() == body.last());
        assert(is_digit(body[body.len() - 1]));
    } else {
        decimals_read_back(i as nat);
        assert(is_digit(t[0]) && is_digit(t[t.len() - 1]));
    }
    assert(trimmed_start(t) == t);
    assert(trimmed_end(t) == t);
}

/// A text reads as a whole number only where it is decimal digits and nothing else, but for a sign
/// in front of them.
pub proof fn only_digits_read_as_whole_numbers(s: Seq<char>)
    requires
        int_of_text(s) is Some,
    ensures
        s.len() > 0,
        forall|i: int| 1 <= i < s.len() ==> '0' <= #[trigger] s[i] <= '9',
        '0' <= s[0] <= '9' || s.len() > 1 && (s[0] == '+' || s[0] == '-'),
{
    let body = unsigned(s);
    let from: int = if has_sign(s) {
        1
    } else {
        0
    };
    assert forall|i: int| from <= i < s.len() implies '0' <= #[trigger] s[i] <= '9' by {
        assert(is_digit(body[i - from]));
        assert(body[i - from] == s[i]);
    }
}

/// One digit reads as itself, and as its opposite behind a minus sign.
pub proof fn one_digit_reads_as_itself(c: char)
    requires
        '0' <= c <= '9',
    ensures
        int_of_text(seq![c]) == Some((c as int - '0' as int) as i64),
        int_of_text(seq!['+', c]) == Some((c as int - '0' as int) as i64),
        int_of_text(seq!['-', c]) == Some(('0' as int - c as int) as i64),
{
    let one = seq![c];
    assert(one.drop_last() =~= Seq::empty());
    assert(digits_value(one.drop_last()) == 0);
    assert(digits_value(one) == c as int - '0' as int);
    assert(unsigned(one) =~= one);
    assert(unsigned(seq!['+', c]) =~= one);
    assert(unsigned(seq!['-', c]) =~= one);
    assert(signed_value(one) == c as int - '0' as int);
    assert(signed_value(seq!['+', c]) == c as int - '0' as int);
    assert(signed_value(seq!['-', c]) == '0' as int - c as int);
}

/// A digit more makes ten times the number and the digit, away from zero, as long as that fits; and
/// a number that is too large stays so with a digit more.
pub proof fn a_digit_more_makes_ten_times_the_number(s: Seq<char>, c: char)
    requires
        s.len() > 0,
        forall|i: int| 1 <= i < s.len() ==> '0' <= #[trigger] s[i] <= '9',
        '0' <= s[0] <= '9' || s.len() > 1 && (s[0] == '+' || s[0] == '-'),
        '0' <= c <= '9',
    ensures
        int_of_text(s) is None ==> int_of_text(s.push(c)) is None,
        int_of_text(s) matches Some(v) ==> {
            let w = if s[0] == '-' {
                10 * v - (c as int - '0' as int)
            } else {
                10 * v + (c as int - '0' as int)
            };
            int_of_text(s.push(c)) == (if i64::MIN <= w <= i64::MAX {
                Some(w as i64)
            } else {
                None
            })
        },
{
    let longer = s.push(c);
    let body = unsigned(s);
    assert(unsigned(longer) =~= body.push(c));
    assert(body.push(c).drop_last() =~= body);
    let from: int = if has_sign(s) {
        1
    } else {
        0
    };
    assert(all_digits(body)) by {
        assert forall|i: int| 0 <= i < body.len() implies is_digit(#[trigger] body[i]) by {
            assert(body[i] == s[i + from]);
        }
    }
    assert(all_digits(body.push(c))) by {
        assert forall|i: int| 0 <= i < body.push(c).len() implies is_digit(#[trigger] body.push(c)[i]) by {
            if i < body.len() {
                assert(is_digit(body[i]));
            }
        }
    }
    assert(longer[0] == s[0]);
    assert(digits_value(body.push(c)) == 10 * digits_value(body) + (c as int - '0' as int));
}

/// A number is written in digits, without a zero in front, and reads back as itself.
pub proof fn decimals_are_plain_digits(n: nat)
    ensures
        decimal(n).len() > 0,
        forall|i: int| 0 <= i < decimal(n).len() ==> '0' <= #[trigger] decimal(n)[i] <= '9',
        decimal(n)[0] == '0' ==> n == 0 && decimal(n).len() == 1,
        n <= i64::MAX ==> int_of_text(decimal(n)) == Some(n as i64),
    decreases n,
{
    decimals_read_back(n);
    let d = decimal(n);
    assert forall|i: int| 0 <= i < d.len() implies '0' <= #[trigger] d[i] <= '9' by {
        assert(is_digit(d[i]));
    }
    if n >= 10 {
        decimals_are_plain_digits(n / 10);
        assert(d[0] == decimal(n / 10)[0]);
    }
    assert(unsigned(d) == d);
}

/// The last digit of a number stands last, behind the number without it.
pub proof fn decimals_grow_by_digits(n: nat, d: nat)
    requires
        n > 0,
        d < 10,
    ensures
        decimal(10 * n + d) == decimal(n).push(('0' as nat + d) as char),
{
    assert((10 * n + d) / 10 == n);
    assert((10 * n + d) % 10 == d);
}

/// A whole number is written with a minus sign just where it is negative, never with a plus sign,
/// and with no zero in front.
pub proof fn whole_numbers_are_written_plainly(i: i64)
    ensures
        int_of_text(int_text(i as int)) == Some(i),
        i < 0 ==> int_text(i as int)[0] == '-' && int_text(i as int)[1] != '0',
        i > 0 ==> '1' <= int_text(i as int)[0] <= '9',
        i == 0 ==> int_text(i as int) == seq!['0'],
{
    whole_numbers_read_back(i);
    let n: nat = if i < 0 {
        (-(i as int)) as nat
    } else {
        i as nat
    };
    decimals_are_plain_digits(n);
    if i < 0 {
        assert(int_text(i as int)[1] == decimal(n)[0]);
    } else {
        assert('0' <= decimal(n)[0] <= '9');
    }
}

/// A date is written as year, month and day, in this order and with hyphens between them, the
/// month and the day in two digits. Each part reads back as it was given.
pub proof fn dates_read_back(year: u32, month: u32, day: u32)
    requires
        month < 100,
        day < 100,
    ensures
        ({
            let s = date_text(year, month, day);
            let n = s.len() as int;
            &&& n >= 7
            &&& s[n - 6] == '-' && s[n - 3] == '-'
            &&& int_of_text(s.take(n - 6)) == Some(year as i64)
            &&& s[0] == '0' ==> year == 0 && n == 7
            &&& '0' <= s[0] <= '9'
            &&& int_of_text(s.subrange(n - 5, n - 3)) == Some(month as i64)
            &&& '0' <= s[n - 5] <= '9'
            &&& int_of_text(s.skip(n - 2)) == Some(day as i64)
            &&& '0' <= s[n - 2] <= '9'
        }),
{
    let s = date_text(year, month, day);
    let n = s.len() as int;
    lemma_two_digits(month as nat);
    lemma_two_digits(day as nat);
    decimals_are_plain_digits(year as nat);
    assert('0' <= decimal(year as nat)[0] <= '9');
    assert(s.take(n - 6) =~= decimal(year as nat));
    assert(s.subrange(n - 5, n - 3) =~= two_digits(month as nat));
    assert(s.skip(n - 2) =~= two_digits(day as nat));
    assert(s[0] == decimal(year as nat)[0]);
    assert(s[n - 5] == two_digits(month as nat)[0]);
    assert(s[n - 2] == two_digits(day as nat)[0]);
}

/// A number below a hundred takes two digits.
proof fn lemma_two_digits(n: nat)
    requires
        n < 100,
    ensures
        two_digits(n).len() == 2,
        '0' <= two_digits(n)[0] <= '9',
        int_of_text(two_digits(n)) == Some(n as i64),
{
    let t = two_digits(n);
    decimals_are_plain_digits(n);
    if n < 10 {
        assert(t =~= seq!['0', digit_char(n)]);
    } else {
        assert(decimal(n / 10) == seq![digit_char(n / 10)]);
        assert(t =~= seq![digit_char(n / 10), digit_char(n % 10)]);
    }
    let a = t[0];
    assert(seq![a].push(t[1]) =~= t);
    one_digit_reads_as_itself(a);
    a_digit_more_makes_ten_times_the_number(seq![a], t[1]);
}

/// Taking the quotation marks off takes off marks alone, and leaves none on the ends.
pub proof fn only_quotation_marks_are_taken_off(s: Seq<char>) -> (place: (int, int))
    ensures
        0 <= place.0 <= place.1 <= s.len(),
        unquoted(s) == s.subrange(place.0, place.1),
        forall|i: int| 0 <= i < place.0 ==> #[trigger] s[i] == '"',
        forall|i: int| place.1 <= i < s.len() ==> #[trigger] s[i] == '"',
        unquoted(s).len() > 0 ==> unquoted(s).first() != '"' && unquoted(s).last() != '"',
{
    let a = lemma_unquoted_start(s);
    let tail = s.skip(a);
    let b = lemma_unquoted_end(tail);
    assert(s.subrange(a, a + b) =~= tail.take(b));
    assert forall|i: int| a + b <= i < s.len() implies #[trigger] s[i] == '"' by {
        assert(tail[i - a] == s[i]);
    }
    if b > 0 {
        assert(tail.take(b).first() == tail[0]);
    }
    (a, a + b)
}

/// Where the text starts behind the quotation marks in front of it.
proof fn lemma_unquoted_start(s: Seq<char>) -> (a: int)
    ensures
        0 <= a <= s.len(),
        unquoted_start(s) == s.skip(a),
        forall|i: int| 0 <= i < a ==> #[trigger] s[i] == '"',
        a < s.len() ==> s[a] != '"',
    decreases s.len(),
{
    if s.len() > 0 && s.first() == '"' {
        let rest = s.drop_first();
        let b = lemma_unquoted_start(rest);
        assert(rest.skip(b) =~= s.skip(b + 1));
        assert forall|i: int| 0 <= i < b + 1 implies #[trigger] s[i] == '"' by {
            if i > 0 {
                assert(rest[i - 1] == s[i]);
            }
        }
        b + 1
    } else {
        assert(s.skip(0) =~= s);
        0
    }
}

/// Where the text ends before the quotation marks behind it.
proof fn lemma_unquoted_end(s: Seq<char>) -> (b: int)
    ensures
        0 <= b <= s.len(),
        unquoted_end(s) == s.take(b),
        forall|i: int| b <= i < s.len() ==> #[trigger] s[i] == '"',
        b > 0 ==> s[b - 1] != '"',
    decreases s.len(),
{
    if s.len() > 0 && s.last() == '"' {
        let front = s.drop_last();
        let b = lemma_unquoted_end(front);
        assert(front.take(b) =~= s.take(b));
        assert forall|i: int| b <= i < s.len() implies #[trigger] s[i] == '"' by {
            if i < front.len() {
                assert(front[i] == s[i]);
            }
        }
        b
    } else {
        assert(s.take(s.len() as int) =~= s);
        s.len() as int
    }
}

/// Trimming takes white space off the ends and nothing else, and leaves none there.
pub proof fn only_white_space_is_trimmed(s: Seq<char>) -> (place: (int, int))
    ensures
        0 <= place.0 <= place.1 <= s.len(),
        trimmed(s) == s.subrange(place.0, place.1),
        forall|i: int|
            0 <= i < s.len() && (i < place.0 || place.1 <= i) ==> {
                let c = #[trigger] s[i];
                ||| '\u{9}' <= c <= '\u{d}'
                ||| c == ' ' || c == '\u{85}' || c == '\u{a0}' || c == '\u{1680}'
                ||| '\u{2000}' <= c <= '\u{200a}'
                ||| c == '\u{2028}' || c == '\u{2029}' || c == '\u{202f}' || c == '\u{205f}' || c == '\u{3000}'
            },
        forall|i: int|
            0 <= i < trimmed(s).len() && (i == 0 || i == trimmed(s).len() - 1) ==> {
                let c = #[trigger] trimmed(s)[i];
                !({
                    ||| '\u{9}' <= c <= '\u{d}'
                    ||| c == ' ' || c == '\u{85}' || c == '\u{a0}' || c == '\u{1680}'
                    ||| '\u{2000}' <= c <= '\u{200a}'
                    ||| c == '\u{2028}' || c == '\u{2029}' || c == '\u{202f}' || c == '\u{205f}' || c == '\u{3000}'
                })
            },
{
    trimming_twice_is_trimming_once(s);
    let a = lemma_trimmed_start_place(s);
    let tail = s.skip(a);
    lemma_trimmed_end_fixed(tail);
    let b = trimmed_end(tail).len() as int;
    lemma_trimmed_end_rest(tail);
    assert(s.subrange(a, a + b) =~= tail.take(b));
    assert forall|i: int| 0 <= i < s.len() && (i < a || a + b <= i) implies is_white_space(#[trigger] s[i]) by {
        if a <= i {
            assert(tail[i - a] == s[i]);
        }
    }
    (a, a + b)
}

/// Where the text starts behind the white space in front of it.
proof fn lemma_trimmed_start_place(s: Seq<char>) -> (a: int)
    ensures
        0 <= a <= s.len(),
        trimmed_start(s) == s.skip(a),
        forall|i: int| 0 <= i < a ==> is_white_space(#[trigger] s[i]),
    decreases s.len(),
{
    if s.len() > 0 && is_white_space(s.first()) {
        let rest = s.drop_first();
        let b = lemma_trimmed_start_place(rest);
        assert(rest.skip(b) =~= s.skip(b + 1));
        assert forall|i: int| 0 <= i < b + 1 implies is_white_space(#[trigger] s[i]) by {
            if i > 0 {
                assert(rest[i - 1] == s[i]);
            }
        }
        b + 1
    } else {
        assert(s.skip(0) =~= s);
        0
    }
}

/// What is trimmed off the end is white space.
proof fn lemma_trimmed_end_rest(s: Seq<char>)
    ensures
        forall|i: int| trimmed_end(s).len() <= i < s.len() ==> is_white_space(#[trigger] s[i]),
    decreases s.len(),
{
    if s.len() > 0 && is_white_space(s.last()) {
        let front = s.drop_last();
        lemma_trimmed_end_rest(front);
        assert forall|i: int| trimmed_end(s).len() <= i < s.len() implies is_white_space(#[trigger] s[i]) by {
            if i < front.len() {
                assert(front[i] == s[i]);
            }
        }
    }
}

/// The ASCII lower case changes the capitals of ASCII, each to its small letter, and nothing else.
pub proof fn lower_case_changes_capitals_alone(s: Seq<char>, i: int)
    requires
        0 <= i < s.len(),
    ensures
        ascii_lower(s).len() == s.len(),
        'A' <= s[i] <= 'Z' ==> ascii_lower(s)[i] as int == s[i] as int + ('a' as int - 'A' as int),
        !('A' <= s[i] <= 'Z') ==> ascii_lower(s)[i] == s[i],
{
}

/// A date is its year, its month and its day, with hyphens between them; a month or a day of one
/// digit has a zero in front, and another has none.
pub proof fn dates_have_three_parts(year: u32, month: u32, day: u32)
    ensures
        date_text(year, month, day) == decimal(year as nat) + seq!['-'] + two_digits(month as nat) + seq!['-']
            + two_digits(day as nat),
        month < 10 ==> two_digits(month as nat) == seq!['0', ('0' as nat + month) as char],
        month >= 10 ==> two_digits(month as nat) == decimal(month as nat),
{
    if month < 10 {
        assert(two_digits(month as nat) =~= seq!['0', ('0' as nat + month) as char]);
    }
}

} // verus!
