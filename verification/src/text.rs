//! Numbers as text, and the order of texts.

use vstd::prelude::*;
use vstd::string::StringExecFns;
use vstd::utf8::encode_utf8;

verus! {

/// The character of a decimal digit.
pub open spec fn digit_char(d: int) -> char {
    ('0' as u32 + d) as char
}

/// The decimal digits of a number.
pub open spec fn decimal(n: nat) -> Seq<char>
    decreases n,
{
    if n < 10 {
        seq![digit_char(n as int)]
    } else {
        decimal(n / 10).push(digit_char(n as int % 10))
    }
}

fn digit_str(d: u64) -> (s: &'static str)
    requires
        d < 10,
    ensures
        s@ == seq![digit_char(d as int)],
{
    proof {
        reveal_strlit("0");
        reveal_strlit("1");
        reveal_strlit("2");
        reveal_strlit("3");
        reveal_strlit("4");
        reveal_strlit("5");
        reveal_strlit("6");
        reveal_strlit("7");
        reveal_strlit("8");
        reveal_strlit("9");
    }
    let s: &'static str = match d {
        0 => "0",
        1 => "1",
        2 => "2",
        3 => "3",
        4 => "4",
        5 => "5",
        6 => "6",
        7 => "7",
        8 => "8",
        _ => "9",
    };
    assert(s@ =~= seq![digit_char(d as int)]);
    s
}

/// The number written in decimal.
pub fn decimal_string(n: u64) -> (s: String)
    ensures
        s@ == decimal(n as nat),
    decreases n,
{
    let last = digit_str(n % 10);
    if n < 10 {
        last.to_owned()
    } else {
        let mut s = decimal_string(n / 10);
        s.append(last);
        assert(s@ =~= decimal(n as nat));
        s
    }
}

/// The decimal digits of a number, with a zero before a single one.
pub open spec fn decimal_of_two(n: nat) -> Seq<char> {
    if n < 10 {
        seq!['0'] + decimal(n)
    } else {
        decimal(n)
    }
}

/// The number written in decimal with at least two digits.
pub fn decimal_of_two_string(n: u64) -> (s: String)
    ensures
        s@ == decimal_of_two(n as nat),
{
    if n < 10 {
        proof {
            reveal_strlit("0");
        }
        let mut s = "0".to_owned();
        assert(s@ =~= seq!['0']);
        s.append(decimal_string(n).as_str());
        s
    } else {
        decimal_string(n)
    }
}

/// Whether from the index `k` on the bytes `a` come before the bytes `b` in lexicographic order.
pub open spec fn bytes_less(a: Seq<u8>, b: Seq<u8>, k: int) -> bool
    decreases b.len() - k,
{
    if k >= b.len() {
        false
    } else if k >= a.len() {
        true
    } else if a[k] != b[k] {
        a[k] < b[k]
    } else {
        bytes_less(a, b, k + 1)
    }
}

/// Whether the text `a` comes before the text `b` in the order of their UTF-8 bytes.
pub open spec fn text_less(a: Seq<char>, b: Seq<char>) -> bool {
    bytes_less(encode_utf8(a), encode_utf8(b), 0)
}

/// Whether the bytes `a` come before the bytes `b`.
pub fn are_bytes_less(a: &[u8], b: &[u8]) -> (less: bool)
    ensures
        less == bytes_less(a@, b@, 0),
{
    let mut k: usize = 0;
    while k < a.len() && k < b.len() && a[k] == b[k]
        invariant
            k <= a@.len(),
            k <= b@.len(),
            bytes_less(a@, b@, 0) == bytes_less(a@, b@, k as int),
        decreases a@.len() - k,
    {
        k = k + 1;
    }
    if k >= b.len() {
        false
    } else if k >= a.len() {
        true
    } else {
        a[k] < b[k]
    }
}

/// Whether the text `a` comes before the text `b`.
pub fn is_text_less(a: &str, b: &str) -> (less: bool)
    ensures
        less == text_less(a@, b@),
{
    are_bytes_less(a.as_bytes(), b.as_bytes())
}

proof fn lemma_bytes_less_transitive(a: Seq<u8>, b: Seq<u8>, c: Seq<u8>, k: int)
    requires
        0 <= k,
        bytes_less(a, b, k),
        bytes_less(b, c, k),
    ensures
        bytes_less(a, c, k),
    decreases c.len() - k,
{
    if k < c.len() && k < b.len() && k < a.len() && a[k] == b[k] && b[k] == c[k] {
        lemma_bytes_less_transitive(a, b, c, k + 1);
    }
}

proof fn lemma_bytes_less_total(a: Seq<u8>, b: Seq<u8>, k: int)
    requires
        0 <= k,
        k <= a.len(),
        k <= b.len(),
        forall|i: int| 0 <= i < k ==> #[trigger] a[i] == b[i],
    ensures
        bytes_less(a, b, k) || bytes_less(b, a, k) || a == b,
        !(bytes_less(a, b, k) && bytes_less(b, a, k)),
        a == b ==> !bytes_less(a, b, k),
    decreases a.len() - k,
{
    if k < a.len() && k < b.len() && a[k] == b[k] {
        lemma_bytes_less_total(a, b, k + 1);
    } else if k == a.len() && k == b.len() {
        assert(a =~= b);
    }
}

/// The order of byte strings is a strict total order.
pub proof fn bytes_less_is_total_order(a: Seq<u8>, b: Seq<u8>, c: Seq<u8>)
    ensures
        !bytes_less(a, a, 0),
        bytes_less(a, b, 0) && bytes_less(b, c, 0) ==> bytes_less(a, c, 0),
        bytes_less(a, b, 0) || bytes_less(b, a, 0) || a == b,
        !(bytes_less(a, b, 0) && bytes_less(b, a, 0)),
{
    lemma_bytes_less_total(a, a, 0);
    lemma_bytes_less_total(a, b, 0);
    if bytes_less(a, b, 0) && bytes_less(b, c, 0) {
        lemma_bytes_less_transitive(a, b, c, 0);
    }
}

/// The order of texts is a strict total order.
pub proof fn text_less_is_total_order(a: Seq<char>, b: Seq<char>, c: Seq<char>)
    ensures
        !text_less(a, a),
        text_less(a, b) && text_less(b, c) ==> text_less(a, c),
        text_less(a, b) || text_less(b, a) || a == b,
        !(text_less(a, b) && text_less(b, a)),
{
    bytes_less_is_total_order(encode_utf8(a), encode_utf8(b), encode_utf8(c));
    vstd::utf8::encode_utf8_decode_utf8(a);
    vstd::utf8::encode_utf8_decode_utf8(b);
}

/// Whether the texts are in order, none of them occurring twice.
pub open spec fn is_sorted(texts: Seq<String>) -> bool {
    forall|i: int, j: int|
        0 <= i < j < texts.len() ==> text_less((#[trigger] texts[i])@, (#[trigger] texts[j])@)
}

/// Whether the text is among the texts.
pub open spec fn has_text(texts: Seq<String>, text: Seq<char>) -> bool {
    exists|i: int| 0 <= i < texts.len() && (#[trigger] texts[i])@ == text
}

/// Adds a text in its place unless it is there already.
pub fn insert_sorted(texts: &mut Vec<String>, text: &String)
    requires
        is_sorted(old(texts)@),
    ensures
        is_sorted(final(texts)@),
        forall|t: Seq<char>| #[trigger]
            has_text(final(texts)@, t) <==> has_text(old(texts)@, t) || t == text@,
{
    let mut i: usize = 0;
    while i < texts.len() && is_text_less(texts[i].as_str(), text.as_str())
        invariant
            is_sorted(old(texts)@),
            texts@ == old(texts)@,
            i <= texts@.len(),
            forall|j: int| 0 <= j < i ==> text_less((#[trigger] texts@[j])@, text@),
        decreases texts@.len() - i,
    {
        i = i + 1;
    }
    let ghost old_texts = texts@;
    if i < texts.len() && texts[i] == *text {
        assert(has_text(old_texts, text@));
        return;
    }
    texts.insert(i, text.clone());
    proof {
        let t = texts@;
        assert(t == old_texts.insert(i as int, t[i as int]));
        assert forall|a: int, b: int| 0 <= a < b < t.len() implies text_less(
            (#[trigger] t[a])@,
            (#[trigger] t[b])@,
        ) by {
            if i < old_texts.len() {
                text_less_is_total_order(text@, old_texts[i as int]@, text@);
            }
            if b == i {
                assert(t[a] == old_texts[a]);
            } else if a == i {
                assert(t[b] == old_texts[b - 1]);
                if b - 1 > i {
                    text_less_is_total_order(text@, old_texts[i as int]@, old_texts[b - 1]@);
                }
            } else {
                let a0 = if a < i { a } else { a - 1 };
                let b0 = if b < i { b } else { b - 1 };
                assert(t[a] == old_texts[a0] && t[b] == old_texts[b0]);
            }
        }
        assert forall|x: Seq<char>| #[trigger] has_text(t, x) <==> has_text(old_texts, x) || x == text@ by {
            if has_text(old_texts, x) {
                let k = choose|k: int| 0 <= k < old_texts.len() && (#[trigger] old_texts[k])@ == x;
                let k1 = if k < i { k } else { k + 1 };
                assert(t[k1] == old_texts[k]);
            }
            if x == text@ {
                assert(t[i as int]@ == x);
            }
            if has_text(t, x) && x != text@ {
                let k = choose|k: int| 0 <= k < t.len() && (#[trigger] t[k])@ == x;
                let k1 = if k < i { k } else { k - 1 };
                assert(t[k] == old_texts[k1]);
            }
        }
    }
}

// ---------------------------------------------------------------------------------------------
// Reading numbers
// ---------------------------------------------------------------------------------------------

/// The value of a digit in a base up to sixteen; `None` if it is none.
pub open spec fn digit_value(c: u8, radix: int) -> Option<int> {
    let v = if 0x30 <= c <= 0x39 {
        c - 0x30
    } else if 0x41 <= c <= 0x46 {
        c - 0x41 + 10
    } else if 0x61 <= c <= 0x66 {
        c - 0x61 + 10
    } else {
        radix
    };
    if v < radix {
        Some(v)
    } else {
        None
    }
}

/// The value of digits, the most significant one first; `None` if there is anything else among them.
pub open spec fn digits_value(digits: Seq<u8>, radix: int) -> Option<int>
    decreases digits.len(),
{
    if digits.len() == 0 {
        Some(0)
    } else {
        match digits_value(digits.drop_last(), radix) {
            Some(v) => match digit_value(digits.last(), radix) {
                Some(d) => Some(v * radix + d),
                None => None,
            },
            None => None,
        }
    }
}

/// The number which is written as digits, possibly after a plus; `None` if it is not a number, or
/// if it is greater than `max`.
pub open spec fn number_of(text: Seq<u8>, radix: int, max: int) -> Option<int> {
    let digits = if text.len() > 0 && text[0] == 0x2b {
        text.skip(1)
    } else {
        text
    };
    if digits.len() == 0 {
        None
    } else {
        match digits_value(digits, radix) {
            Some(v) => if v <= max {
                Some(v)
            } else {
                None
            },
            None => None,
        }
    }
}

/// More digits do not make a number smaller, and do not make a number of what is none.
proof fn lemma_digits_value_grows(digits: Seq<u8>, n: int, radix: int)
    requires
        0 <= n <= digits.len(),
        radix >= 1,
    ensures
        digits_value(digits, radix) is Some ==> digits_value(digits.take(n), radix) is Some && 0
            <= digits_value(digits.take(n), radix)->0 <= digits_value(digits, radix)->0,
    decreases digits.len(),
{
    if n < digits.len() {
        lemma_digits_value_grows(digits.drop_last(), n, radix);
        assert(digits.drop_last().take(n) =~= digits.take(n));
        if digits_value(digits, radix) is Some {
            let v = digits_value(digits.drop_last(), radix)->0;
            assert(v * radix >= v) by (nonlinear_arith)
                requires
                    v >= 0,
                    radix >= 1,
            ;
        }
    } else {
        assert(digits.take(n) =~= digits);
        if digits.len() > 0 {
            lemma_digits_value_grows(digits.drop_last(), digits.len() - 1, radix);
            assert(digits.drop_last().take(digits.len() - 1) =~= digits.drop_last());
            if digits_value(digits, radix) is Some {
                let v = digits_value(digits.drop_last(), radix)->0;
                assert(v * radix >= 0) by (nonlinear_arith)
                    requires
                        v >= 0,
                        radix >= 1,
                ;
            }
        }
    }
}

fn read_digit(c: u8, radix: u64) -> (value: Option<u64>)
    requires
        1 <= radix <= 16,
    ensures
        value is Some <==> digit_value(c, radix as int) is Some,
        value is Some ==> value->0 == digit_value(c, radix as int)->0,
{
    let v: u64 = if 0x30 <= c && c <= 0x39 {
        (c - 0x30) as u64
    } else if 0x41 <= c && c <= 0x46 {
        (c - 0x41) as u64 + 10
    } else if 0x61 <= c && c <= 0x66 {
        (c - 0x61) as u64 + 10
    } else {
        radix
    };
    if v < radix {
        Some(v)
    } else {
        None
    }
}

/// Reads a number which is written in the base `radix` and is not greater than `max`.
pub fn parse_number(text: &[u8], radix: u64, max: u64) -> (number: Option<u64>)
    requires
        1 <= radix <= 16,
    ensures
        number is Some <==> number_of(text@, radix as int, max as int) is Some,
        number is Some ==> number->0 == number_of(text@, radix as int, max as int)->0,
{
    let start: usize = if text.len() > 0 && text[0] == 0x2b {
        1
    } else {
        0
    };
    let ghost digits = text@.skip(start as int);
    assert(start == 0 ==> digits =~= text@);
    if start == text.len() {
        return None;
    }
    let mut i: usize = start;
    let mut v: u64 = 0;
    assert(digits.take(0) =~= Seq::empty());
    while i < text.len()
        invariant
            1 <= radix <= 16,
            start <= 1,
            start <= i <= text@.len(),
            start < text@.len(),
            digits == text@.skip(start as int),
            digits_value(digits.take(i - start), radix as int) == Some(v as int),
            v <= max,
            number_of(text@, radix as int, max as int) == (match digits_value(digits, radix as int) {
                Some(v) => if v <= max {
                    Some(v)
                } else {
                    None
                },
                None => None,
            }),
        decreases text@.len() - i,
    {
        let ghost longer = digits.take(i + 1 - start);
        proof {
            assert(longer.drop_last() =~= digits.take(i - start));
            assert(longer.last() == text@[i as int]);
            lemma_digits_value_grows(digits, i + 1 - start, radix as int);
        }
        match read_digit(text[i], radix) {
            None => {
                return None;
            },
            Some(d) => {
                assert(0 <= v * radix <= u64::MAX * 16) by (nonlinear_arith)
                    requires
                        0 <= v <= u64::MAX,
                        0 <= radix <= 16,
                ;
                let scaled: u128 = v as u128 * radix as u128 + d as u128;
                if scaled > max as u128 {
                    return None;
                }
                v = scaled as u64;
            },
        }
        i = i + 1;
    }
    assert(digits.take(i - start) =~= digits);
    Some(v)
}

/// A number is read back from its decimal digits.
pub proof fn decimal_is_read_back(n: nat, max: int)
    requires
        n <= max,
    ensures
        number_of(encode_utf8(decimal(n)), 10, max) == Some(n as int),
{
    lemma_decimal_digits(n);
    vstd::utf8::is_ascii_chars_encode_utf8(decimal(n));
    lemma_decimal_value(n);
    let bytes = encode_utf8(decimal(n));
    assert(bytes =~= decimal(n).map_values(|c: char| c as u8));
}

/// Decimal numbers are written with decimal digits alone.
pub proof fn lemma_decimal_digits(n: nat)
    ensures
        decimal(n).len() > 0,
        forall|i: int| 0 <= i < decimal(n).len() ==> '0' <= #[trigger] decimal(n)[i] <= '9',
    decreases n,
{
    if n >= 10 {
        lemma_decimal_digits(n / 10);
    }
}

proof fn lemma_decimal_value(n: nat)
    ensures
        digits_value(decimal(n).map_values(|c: char| c as u8), 10) == Some(n as int),
    decreases n,
{
    let bytes = decimal(n).map_values(|c: char| c as u8);
    if n >= 10 {
        lemma_decimal_value(n / 10);
        assert(bytes.drop_last() =~= decimal(n / 10).map_values(|c: char| c as u8));
    } else {
        assert(bytes.drop_last() =~= Seq::empty());
        assert(digits_value(bytes.drop_last(), 10) == Some(0int));
    }
    assert(bytes.last() == 0x30 + n as int % 10);
}

} // verus!
