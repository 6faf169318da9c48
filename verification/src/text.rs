//! Text: equality, assembly and decimal rendering of strings.
use vstd::prelude::*;
use vstd::utf8::encode_utf8_decode_utf8;

verus! {

/// The decimal digit that stands for `d`.
pub open spec fn digit_char(d: nat) -> char
    recommends
        d < 10,
{
    if d == 0 {
        '0'
    } else if d == 1 {
        '1'
    } else if d == 2 {
        '2'
    } else if d == 3 {
        '3'
    } else if d == 4 {
        '4'
    } else if d == 5 {
        '5'
    } else if d == 6 {
        '6'
    } else if d == 7 {
        '7'
    } else if d == 8 {
        '8'
    } else {
        '9'
    }
}

/// The decimal numeral of `n`, without leading zeros.
pub open spec fn decimal(n: nat) -> Seq<char>
    decreases n,
{
    if n < 10 {
        seq![digit_char(n)]
    } else {
        decimal(n / 10).push(digit_char(n % 10))
    }
}

/// The decimal numeral of `n`, with a minus sign in front when `n` is negative.
pub open spec fn signed_decimal(n: int) -> Seq<char> {
    if n < 0 {
        seq!['-'] + decimal((-n) as nat)
    } else {
        decimal(n as nat)
    }
}

/// Whether `needle` occurs in `haystack` at position `i`.
pub open spec fn occurs_at<T>(haystack: Seq<T>, needle: Seq<T>, i: int) -> bool {
    &&& 0 <= i
    &&& i + needle.len() <= haystack.len()
    &&& haystack.subrange(i, i + needle.len()) == needle
}

/// Whether `needle` occurs somewhere in `haystack`.
pub open spec fn occurs_in<T>(haystack: Seq<T>, needle: Seq<T>) -> bool {
    exists|i: int| occurs_at(haystack, needle, i)
}

/// Whether `a` and `b` are the same bytes.
pub fn bytes_eq(a: &[u8], b: &[u8]) -> (result: bool)
    ensures
        result == (a@ == b@),
{
    if a.len() != b.len() {
        return false;
    }
    let mut i: usize = 0;
    while i < a.len()
        invariant
            a.len() == b.len(),
            i <= a.len(),
            forall|j: int| 0 <= j < i ==> a@[j] == b@[j],
        decreases a.len() - i,
    {
        if a[i] != b[i] {
            return false;
        }
        i += 1;
    }
    assert(a@ =~= b@);
    true
}

/// Whether `a` and `b` are the same text.
pub fn str_eq(a: &str, b: &str) -> (result: bool)
    ensures
        result == (a@ == b@),
{
    proof {
        encode_utf8_decode_utf8(a@);
        encode_utf8_decode_utf8(b@);
    }
    bytes_eq(a.as_bytes(), b.as_bytes())
}

/// Whether `list` holds the text `item`.
pub fn list_contains(list: &Vec<String>, item: &str) -> (result: bool)
    ensures
        result == (exists|i: int| 0 <= i < list@.len() && #[trigger] list@[i]@ == item@),
{
    let mut i: usize = 0;
    while i < list.len()
        invariant
            i <= list.len(),
            forall|j: int| 0 <= j < i ==> #[trigger] list@[j]@ != item@,
        decreases list.len() - i,
    {
        if str_eq(list[i].as_str(), item) {
            assert(list@[i as int]@ == item@);
            return true;
        }
        i += 1;
    }
    false
}

/// The two texts, one after the other.
pub fn join(a: &str, b: &str) -> (result: String)
    ensures
        result@ == a@ + b@,
{
    let mut out: String = a.to_owned();
    out.append(b);
    out
}

/// The three texts, one after the other.
pub fn join3(a: &str, b: &str, c: &str) -> (result: String)
    ensures
        result@ == a@ + b@ + c@,
{
    let mut out: String = join(a, b);
    out.append(c);
    out
}

fn digit_text(d: u64) -> (result: &'static str)
    requires
        d < 10,
    ensures
        result@ == seq![digit_char(d as nat)],
{
    proof {
        reveal_strlit("0");
        reveal_strlit("1");
        reveal_strlit("2");
        reveal_strlit("3");
        reveal_strlit("4");
        reveal_strlit("5");
        reveal_strlit("6");
        reveal_strlit("7");
        reveal_strlit("8");
        reveal_strlit("9");
    }
    let out: &'static str = if d == 0 {
        "0"
    } else if d == 1 {
        "1"
    } else if d == 2 {
        "2"
    } else if d == 3 {
        "3"
    } else if d == 4 {
        "4"
    } else if d == 5 {
        "5"
    } else if d == 6 {
        "6"
    } else if d == 7 {
        "7"
    } else if d == 8 {
        "8"
    } else {
        "9"
    };
    assert(out@ =~= seq![digit_char(d as nat)]);
    out
}

/// The decimal numeral of `n`.
pub fn decimal_u64(n: u64) -> (result: String)
    ensures
        result@ == decimal(n as nat),
    decreases n,
{
    if n < 10 {
        digit_text(n).to_owned()
    } else {
        let mut out: String = decimal_u64(n / 10);
        out.append(digit_text(n % 10));
        assert(out@ =~= decimal((n / 10) as nat).push(digit_char((n % 10) as nat)));
        out
    }
}

/// The decimal numeral of `n`, with its sign.
pub fn decimal_i64(n: i64) -> (result: String)
    ensures
        result@ == signed_decimal(n as int),
{
    if n < 0 {
        let magnitude: u64 = if n == i64::MIN {
            0x8000_0000_0000_0000u64
        } else {
            (0 - n) as u64
        };
        let digits: String = decimal_u64(magnitude);
        proof {
            reveal_strlit("-");
        }
        assert("-"@ =~= seq!['-']);
        join("-", digits.as_str())
    } else {
        decimal_u64(n as u64)
    }
}

/// The characters of `text`.
pub fn to_chars(text: &str) -> (result: Vec<char>)
    ensures
        result@ == text@,
{
    let mut out: Vec<char> = Vec::new();
    for c in iter: text.chars()
        invariant
            iter.seq() == text@,
            out@ == text@.take(iter.index() as int),
    {
        out.push(c);
        assert(out@ =~= text@.take(iter.index() + 1));
    }
    assert(out@ =~= text@);
    out
}

/// Whether `text` starts with `prefix`.
pub open spec fn has_prefix(text: Seq<char>, prefix: Seq<char>) -> bool {
    prefix.len() <= text.len() && text.take(prefix.len() as int) == prefix
}

/// Whether `text` starts with `prefix`.
pub fn starts_with(text: &str, prefix: &str) -> (result: bool)
    ensures
        result == has_prefix(text@, prefix@),
{
    let chars = to_chars(text);
    let wanted = to_chars(prefix);
    if wanted.len() > chars.len() {
        return false;
    }
    let mut i: usize = 0;
    while i < wanted.len()
        invariant
            i <= wanted@.len() <= chars@.len(),
            chars@ == text@,
            wanted@ == prefix@,
            forall|j: int| 0 <= j < i ==> chars@[j] == wanted@[j],
        decreases wanted@.len() - i,
    {
        if chars[i] != wanted[i] {
            assert(text@.take(prefix@.len() as int)[i as int] != prefix@[i as int]);
            return false;
        }
        i += 1;
    }
    assert(text@.take(prefix@.len() as int) =~= prefix@);
    true
}

/// The value of a digit.
pub open spec fn digit_value(c: char) -> Option<nat> {
    if '0' <= c && c <= '9' {
        Some((c as u32 - '0' as u32) as nat)
    } else {
        None
    }
}

/// The number that a non-empty run of digits stands for.
pub open spec fn numeral_value(digits: Seq<char>) -> Option<nat>
    decreases digits.len(),
{
    if digits.len() == 0 {
        None
    } else if digits.len() == 1 {
        digit_value(digits[0])
    } else {
        match (numeral_value(digits.drop_last()), digit_value(digits.last())) {
            (Some(front), Some(last)) => Some(10 * front + last),
            _ => None,
        }
    }
}

/// The number within 32 bits that `text` stands for: digits, with a plus sign in
/// front or without.
pub open spec fn unsigned_value(text: Seq<char>) -> Option<u32> {
    let digits = if text.len() > 0 && text[0] == '+' {
        text.skip(1)
    } else {
        text
    };
    match numeral_value(digits) {
        Some(value) => if value <= u32::MAX {
            Some(value as u32)
        } else {
            None
        },
        None => None,
    }
}

proof fn lemma_numeral_grows(digits: Seq<char>, n: int)
    requires
        0 < n <= digits.len(),
    ensures
        numeral_value(digits.take(n)) is None ==> numeral_value(digits) is None,
        numeral_value(digits.take(n)) is Some && numeral_value(digits) is Some
            ==> numeral_value(digits.take(n))->0 <= numeral_value(digits)->0,
    decreases digits.len(),
{
    if n == digits.len() {
        assert(digits.take(n) =~= digits);
    } else {
        assert(digits.drop_last().take(n) =~= digits.take(n));
        lemma_numeral_grows(digits.drop_last(), n);
    }
}

/// The number within 32 bits that `text` stands for.
pub fn parse_u32(text: &str) -> (result: Option<u32>)
    ensures
        result == unsigned_value(text@),
{
    let chars = to_chars(text);
    let start: usize = if chars.len() > 0 && chars[0] == '+' {
        1
    } else {
        0
    };
    let ghost digits = text@.skip(start as int);
    assert(text@.skip(0) =~= text@);
    if chars.len() == start {
        return None;
    }
    let mut value: u64 = 0;
    let mut i: usize = start;
    while i < chars.len()
        invariant
            chars@ == text@,
            start <= i <= chars@.len(),
            start < chars@.len(),
            digits == chars@.skip(start as int),
            start == (if chars@[0] == '+' { 1int } else { 0int }),
            chars@.skip(0) == chars@,
            value <= u32::MAX,
            i == start ==> value == 0,
            i > start ==> numeral_value(digits.take(i - start)) == Some(value as nat),
        decreases chars@.len() - i,
    {
        let c = chars[i];
        proof {
            let next = digits.take(i - start + 1);
            assert(next.last() == c);
            assert(next.drop_last() =~= digits.take(i - start));
            lemma_numeral_grows(digits, i - start + 1);
        }
        if c < '0' || c > '9' {
            return None;
        }
        value = value * 10 + ((c as u32) - ('0' as u32)) as u64;
        if value > u32::MAX as u64 {
            return None;
        }
        i += 1;
    }
    assert(digits.take(i - start) =~= digits);
    Some(value as u32)
}

/// A numeral is read back as the number that it was written for.
pub proof fn lemma_decimal_round_trip(n: u32)
    ensures
        unsigned_value(decimal(n as nat)) == Some(n),
{
    lemma_decimal_value(n as nat);
    let text = decimal(n as nat);
    assert(text[0] != '+');
}

proof fn lemma_decimal_value(n: nat)
    ensures
        decimal(n).len() > 0,
        numeral_value(decimal(n)) == Some(n),
        digit_value(decimal(n)[0]) is Some,
    decreases n,
{
    if n >= 10 {
        lemma_decimal_value(n / 10);
        let front = decimal(n / 10);
        let text = decimal(n);
        assert(text.drop_last() =~= front);
        assert(digit_value(digit_char(n % 10)) == Some(n % 10));
    } else {
        assert(digit_value(digit_char(n)) == Some(n));
    }
}

/// Different numbers have different numerals.
pub proof fn lemma_decimal_injective(a: nat, b: nat)
    requires
        decimal(a) == decimal(b),
    ensures
        a == b,
{
    lemma_decimal_value(a);
    lemma_decimal_value(b);
}

/// A numeral holds nothing but digits.
pub proof fn lemma_decimal_digits(n: nat)
    ensures
        forall|i: int| 0 <= i < decimal(n).len() ==> '0' <= (#[trigger] decimal(n)[i]) <= '9',
    decreases n,
{
    if n >= 10 {
        lemma_decimal_digits(n / 10);
        assert forall|i: int| 0 <= i < decimal(n).len() implies '0' <= (#[trigger] decimal(n)[i])
            <= '9' by {
            if i < decimal(n / 10).len() {
                assert(decimal(n)[i] == decimal(n / 10)[i]);
            }
        }
    }
}

/// A numeral grows at its end: ten times a number and one digit more is written as the
/// number and then the digit. The digits are those of ASCII, in their order.
pub proof fn lemma_decimal_grows_by_a_digit(n: nat, d: nat)
    requires
        n > 0,
        d < 10,
    ensures
        decimal(10 * n + d) == decimal(n) + decimal(d),
        decimal(d).len() == 1,
        decimal(d)[0] as u32 == 48 + d,
{
    assert((10 * n + d) / 10 == n && (10 * n + d) % 10 == d);
    assert(decimal(10 * n + d) =~= decimal(n) + decimal(d));
}

/// The numeral of a number below zero is that of its magnitude with a minus sign before
/// it, and no other numeral holds one. Different numbers have different numerals, and none
/// holds a colon.
pub proof fn lemma_signed_decimal_is_faithful(a: int, b: int)
    ensures
        a < 0 ==> signed_decimal(a) == seq!['-'] + signed_decimal(-a),
        forall|i: int| a >= 0 && 0 <= i < signed_decimal(a).len() ==> (#[trigger] signed_decimal(a)[i])
            != '-',
        forall|i: int| 0 <= i < signed_decimal(a).len() ==> (#[trigger] signed_decimal(a)[i]) != ':',
        signed_decimal(a).len() > 0,
        signed_decimal(a) == signed_decimal(b) ==> a == b,
{
    let x = if a < 0 { (-a) as nat } else { a as nat };
    let y = if b < 0 { (-b) as nat } else { b as nat };
    lemma_decimal_digits(x);
    lemma_decimal_digits(y);
    lemma_decimal_value(x);
    lemma_decimal_value(y);
    assert forall|i: int| 0 <= i < signed_decimal(a).len() implies (#[trigger] signed_decimal(a)[i])
        != ':' by {
        if a < 0 {
            if i > 0 {
                assert(signed_decimal(a)[i] == decimal(x)[i - 1]);
            }
        } else {
            assert(signed_decimal(a)[i] == decimal(x)[i]);
        }
    }
    assert forall|i: int| a >= 0 && 0 <= i < signed_decimal(a).len() implies (
    #[trigger] signed_decimal(a)[i]) != '-' by {
        assert(signed_decimal(a)[i] == decimal(x)[i]);
    }
    if signed_decimal(a) == signed_decimal(b) {
        if a < 0 && b >= 0 {
            assert(signed_decimal(a)[0] == '-');
            assert(signed_decimal(b)[0] == decimal(y)[0]);
        } else if a >= 0 && b < 0 {
            assert(signed_decimal(b)[0] == '-');
            assert(signed_decimal(a)[0] == decimal(x)[0]);
        } else if a < 0 {
            assert(decimal(x) =~= signed_decimal(a).skip(1));
            assert(decimal(y) =~= signed_decimal(b).skip(1));
            lemma_decimal_injective(x, y);
        } else {
            lemma_decimal_injective(x, y);
        }
    }
}

/// A text is split in one way at the last of its colons.
pub proof fn lemma_last_colon_splits(a: Seq<char>, b: Seq<char>, c: Seq<char>, d: Seq<char>)
    requires
        a + seq![':'] + b == c + seq![':'] + d,
        forall|i: int| 0 <= i < b.len() ==> (#[trigger] b[i]) != ':',
        forall|i: int| 0 <= i < d.len() ==> (#[trigger] d[i]) != ':',
    ensures
        a == c,
        b == d,
{
    let x = a + seq![':'] + b;
    let y = c + seq![':'] + d;
    let i = a.len() as int;
    let k = c.len() as int;
    assert(x.len() == i + 1 + b.len() && y.len() == k + 1 + d.len() && x == y);
    assert(x[i] == ':');
    assert(y[k] == ':');
    if i < k {
        assert(x[k] == b[k - i - 1]);
    }
    if k < i {
        assert(y[i] == d[i - k - 1]);
    }
    assert(a =~= x.take(i));
    assert(c =~= y.take(i));
    assert(b =~= x.skip(i + 1));
    assert(d =~= y.skip(i + 1));
}

/// Exactly the ten digits have values, in their order.
pub proof fn lemma_ten_digits_have_values(c: char)
    ensures
        digit_value(c) is Some <==> '0' <= c && c <= '9',
        digit_value(c) matches Some(d) ==> d < 10 && digit_char(d) == c,
        digit_value('0') == Some(0nat),
        digit_value('9') == Some(9nat),
{
}

/// A digit behind a numeral counts once, and makes the numeral count ten times as much.
pub proof fn lemma_last_digit_counts_once(front: Seq<char>, last: char)
    requires
        front.len() > 0,
    ensures
        numeral_value(front.push(last)) is Some <==> numeral_value(front) is Some && digit_value(
            last,
        ) is Some,
        numeral_value(front.push(last)) matches Some(value) ==> value == 10 * numeral_value(front)->0
            + digit_value(last)->0,
        numeral_value(seq![last]) == digit_value(last),
        numeral_value(Seq::<char>::empty()) is None,
{
    assert(front.push(last).drop_last() =~= front);
}

/// A plus sign before a numeral changes nothing, a second one is no numeral, and a value
/// beyond 32 bits is none.
pub proof fn lemma_plus_sign_changes_nothing(digits: Seq<char>)
    requires
        digits.len() > 0,
        digits[0] != '+',
    ensures
        unsigned_value(seq!['+'] + digits) == unsigned_value(digits),
        unsigned_value(digits) matches Some(value) ==> numeral_value(digits) == Some(value as nat),
        unsigned_value(digits) is None <==> numeral_value(digits) is None || numeral_value(
            digits,
        )->0 > 0xffff_ffff,
{
    assert((seq!['+'] + digits).skip(1) =~= digits);
}

/// A text starts with another exactly where the other, and something more or nothing, makes
/// it up.
pub proof fn lemma_prefix_and_rest_make_the_text(prefix: Seq<char>, rest: Seq<char>, text: Seq<char>)
    ensures
        has_prefix(prefix + rest, prefix),
        has_prefix(text, prefix) ==> text == prefix + text.skip(prefix.len() as int),
{
    assert((prefix + rest).take(prefix.len() as int) =~= prefix);
    if has_prefix(text, prefix) {
        assert(text =~= text.take(prefix.len() as int) + text.skip(prefix.len() as int));
    }
}

/// A text occurs in another exactly where something before and something behind it make
/// that up.
pub proof fn lemma_text_occurs_between(
    before: Seq<char>,
    needle: Seq<char>,
    after: Seq<char>,
    text: Seq<char>,
    i: int,
)
    ensures
        occurs_at(before + needle + after, needle, before.len() as int),
        occurs_in(before + needle + after, needle),
        occurs_at(text, needle, i) ==> text == text.take(i) + needle + text.skip(i + needle.len()),
{
    let whole = before + needle + after;
    assert(whole.subrange(before.len() as int, (before.len() + needle.len()) as int) =~= needle);
    assert(occurs_at(whole, needle, before.len() as int));
    if occurs_at(text, needle, i) {
        assert(text =~= text.take(i) + text.subrange(i, i + needle.len()) + text.skip(
            i + needle.len(),
        ));
    }
}

} // verus!
