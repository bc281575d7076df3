//! Readers for the flat configuration payloads (policies written as JSON
//! objects).  A field is located by its quoted name; its value is read from
//! the text after the next colon.  These readers are deliberately shallow:
//! they look for the first occurrence of the quoted name anywhere in the
//! payload.
use vstd::prelude::*;
use crate::text::{
    chars_of, concat_chars, find_char, find_chars, find_seq, is_digit, is_digit_char,
    lemma_find_seq, starts_with, starts_with_chars, string_from, sub_chars, trim_chars,
    trim_seq, trim_start_chars, trim_start_seq,
};

verus! {

// ---------------------------------------------------------------------------
// Specifications
// ---------------------------------------------------------------------------
/// `"field"`: the field name between double quotes.
pub open spec fn quoted(field: Seq<char>) -> Seq<char> {
    seq!['"'] + field + seq!['"']
}

/// The payload after the first occurrence of `"field"`.
pub open spec fn after_marker(payload: Seq<char>, field: Seq<char>) -> Option<Seq<char>> {
    match find_seq(payload, quoted(field)) {
        Some(i) => Some(payload.skip(i + quoted(field).len())),
        None => None,
    }
}

/// The text after the colon that follows `"field"`, without leading whitespace.
pub open spec fn value_text(payload: Seq<char>, field: Seq<char>) -> Option<Seq<char>> {
    match after_marker(payload, field) {
        None => None,
        Some(after) => match find_seq(after, seq![':']) {
            None => None,
            Some(c) => Some(trim_start_seq(after.skip(c + 1))),
        },
    }
}

/// A double-quoted value at the start of `v`: the text up to the next quote.
pub open spec fn leading_quoted(v: Seq<char>) -> Option<Seq<char>> {
    if v.len() > 0 && v[0] == '"' {
        match find_seq(v.skip(1), seq!['"']) {
            Some(e) => Some(v.skip(1).take(e)),
            None => None,
        }
    } else {
        None
    }
}

/// The string value of `field`.
pub open spec fn string_field(payload: Seq<char>, field: Seq<char>) -> Option<Seq<char>> {
    match value_text(payload, field) {
        None => None,
        Some(v) => leading_quoted(v),
    }
}

/// The ASCII digits at the start of `s`.
pub open spec fn leading_digits(s: Seq<char>) -> Seq<char>
    decreases s.len(),
{
    if s.len() > 0 && is_digit(s[0]) {
        seq![s[0]] + leading_digits(s.drop_first())
    } else {
        seq![]
    }
}

/// The ASCII digits at the end of `s`.
pub open spec fn trailing_digits(s: Seq<char>) -> Seq<char>
    decreases s.len(),
{
    if s.len() > 0 && is_digit(s.last()) {
        trailing_digits(s.drop_last()).push(s.last())
    } else {
        seq![]
    }
}

pub open spec fn digit_value(c: char) -> nat {
    ((c as u32) - 48) as nat
}

/// The number written by the decimal digits `d`.
pub open spec fn decimal_value(d: Seq<char>) -> nat
    decreases d.len(),
{
    if d.len() == 0 {
        0
    } else {
        decimal_value(d.drop_last()) * 10 + digit_value(d.last())
    }
}

/// `str::parse` of an unsigned integer type whose largest value is `max`,
/// on a string made only of ASCII digits.
pub open spec fn parse_decimal(d: Seq<char>, max: nat) -> Option<nat> {
    if d.len() == 0 || decimal_value(d) > max {
        None
    } else {
        Some(decimal_value(d))
    }
}

/// The unsigned number value of `field`, read from the digits after the colon.
pub open spec fn number_field(payload: Seq<char>, field: Seq<char>, max: nat) -> Option<nat> {
    match value_text(payload, field) {
        None => None,
        Some(v) => parse_decimal(leading_digits(v), max),
    }
}

/// The text between the `[` after `"field"` and the next `]`.
pub open spec fn array_body(payload: Seq<char>, field: Seq<char>) -> Option<Seq<char>> {
    match after_marker(payload, field) {
        None => None,
        Some(after) => match find_seq(after, seq!['[']) {
            None => None,
            Some(a) => match find_seq(after.skip(a + 1), seq![']']) {
                None => None,
                Some(e) => Some(after.skip(a + 1).take(e)),
            },
        },
    }
}

/// `str::split` on a single character.
pub open spec fn split_on(s: Seq<char>, c: char) -> Seq<Seq<char>>
    decreases s.len(),
{
    match find_seq(s, seq![c]) {
        None => seq![s],
        Some(i) => {
            proof {
                lemma_find_seq(s, seq![c]);
            }
            seq![s.take(i)] + split_on(s.skip(i + 1), c)
        },
    }
}

/// An array element: its trimmed text must be enclosed in double quotes.
pub open spec fn quoted_element(part: Seq<char>) -> Option<Seq<char>> {
    let t = trim_seq(part);
    if t.len() >= 2 && t[0] == '"' && t.last() == '"' {
        Some(t.subrange(1, t.len() - 1))
    } else {
        None
    }
}

pub open spec fn prepend_values(front: Seq<Seq<char>>, rest: Option<Seq<Seq<char>>>) -> Option<
    Seq<Seq<char>>,
> {
    match rest {
        None => None,
        Some(r) => Some(front + r),
    }
}

/// The elements of a comma-separated array body: blank parts are skipped,
/// any other part must be a quoted string.
pub open spec fn array_elements(parts: Seq<Seq<char>>) -> Option<Seq<Seq<char>>>
    decreases parts.len(),
{
    if parts.len() == 0 {
        Some(seq![])
    } else if trim_seq(parts[0]).len() == 0 {
        array_elements(parts.drop_first())
    } else {
        match quoted_element(parts[0]) {
            None => None,
            Some(v) => prepend_values(seq![v], array_elements(parts.drop_first())),
        }
    }
}

/// The string-array value of `field`.
pub open spec fn string_array_field(payload: Seq<char>, field: Seq<char>) -> Option<
    Seq<Seq<char>>,
> {
    match array_body(payload, field) {
        None => None,
        Some(body) => array_elements(split_on(body, ',')),
    }
}

/// `true` or `false` at the start of the value text of `field`.
pub open spec fn bool_field(payload: Seq<char>, field: Seq<char>) -> Option<bool> {
    match value_text(payload, field) {
        None => None,
        Some(v) => if starts_with(v, seq!['t', 'r', 'u', 'e']) {
            Some(true)
        } else if starts_with(v, seq!['f', 'a', 'l', 's', 'e']) {
            Some(false)
        } else {
            None
        },
    }
}

pub open spec fn opt_seq(o: Option<Vec<char>>) -> Option<Seq<char>> {
    match o {
        Some(v) => Some(v@),
        None => None,
    }
}

pub open spec fn opt_string(o: Option<String>) -> Option<Seq<char>> {
    match o {
        Some(v) => Some(v@),
        None => None,
    }
}

pub open spec fn opt_nat_u64(o: Option<u64>) -> Option<nat> {
    match o {
        Some(v) => Some(v as nat),
        None => None,
    }
}

pub open spec fn strings_view(v: Seq<String>) -> Seq<Seq<char>> {
    v.map_values(|s: String| s@)
}

pub open spec fn opt_strings(o: Option<Vec<String>>) -> Option<Seq<Seq<char>>> {
    match o {
        Some(v) => Some(strings_view(v@)),
        None => None,
    }
}

// ---------------------------------------------------------------------------
// Lemmas
// ---------------------------------------------------------------------------
proof fn lemma_decimal_prefix_monotone(d: Seq<char>, i: int)
    requires
        0 <= i <= d.len(),
    ensures
        decimal_value(d.take(i)) <= decimal_value(d),
    decreases d.len() - i,
{
    if i < d.len() {
        lemma_decimal_prefix_monotone(d, i + 1);
        assert(d.take(i + 1).drop_last() =~= d.take(i));
    } else {
        assert(d.take(i) =~= d);
    }
}

proof fn lemma_leading_digits(s: Seq<char>, n: int)
    requires
        0 <= n <= s.len(),
        forall|i: int| 0 <= i < n ==> is_digit(#[trigger] s[i]),
        n == s.len() || !is_digit(s[n]),
    ensures
        leading_digits(s) == s.take(n),
    decreases n,
{
    if n > 0 {
        assert forall|i: int| 0 <= i < n - 1 implies is_digit(#[trigger] s.drop_first()[i]) by {
            assert(s.drop_first()[i] == s[i + 1]);
        }
        lemma_leading_digits(s.drop_first(), n - 1);
        assert(seq![s[0]] + s.drop_first().take(n - 1) =~= s.take(n));
    } else {
        assert(s.take(0) =~= seq![]);
    }
}

proof fn lemma_trailing_digits(s: Seq<char>)
    ensures
        trailing_digits(s).len() <= s.len(),
        trailing_digits(s) == s.skip(s.len() - trailing_digits(s).len()),
        forall|i: int| 0 <= i < trailing_digits(s).len() ==> is_digit(#[trigger] trailing_digits(s)[i]),
        trailing_digits(s).len() < s.len() ==> !is_digit(
            s[s.len() - trailing_digits(s).len() - 1],
        ),
    decreases s.len(),
{
    if s.len() > 0 && is_digit(s.last()) {
        lemma_trailing_digits(s.drop_last());
        assert(trailing_digits(s) =~= s.skip(s.len() - trailing_digits(s).len()));
    } else {
        assert(s.skip(s.len() as int) =~= seq![]);
    }
}

// ---------------------------------------------------------------------------
// Executable readers
// ---------------------------------------------------------------------------
/// `"field"` as characters.
pub fn quoted_chars(field: &str) -> (r: Vec<char>)
    ensures
        r@ == quoted(field@),
{
    let f = chars_of(field);
    let mut r: Vec<char> = Vec::new();
    r.push('"');
    let r = concat_chars(&r, &f);
    let mut r = r;
    r.push('"');
    assert(r@ =~= quoted(field@));
    r
}

/// The payload after the first occurrence of `"field"`.
pub fn read_after_marker(payload: &Vec<char>, field: &str) -> (r: Option<Vec<char>>)
    ensures
        opt_seq(r) == after_marker(payload@, field@),
{
    let marker = quoted_chars(field);
    proof {
        lemma_find_seq(payload@, marker@);
    }
    let found = find_chars(payload, &marker);
    match found {
        None => None,
        Some(i) => {
            let n = payload.len();
            Some(sub_chars(payload, i + marker.len(), n))
        },
    }
}

/// The text after the colon that follows `"field"`, without leading whitespace.
pub fn read_value_text(payload: &Vec<char>, field: &str) -> (r: Option<Vec<char>>)
    ensures
        opt_seq(r) == value_text(payload@, field@),
{
    match read_after_marker(payload, field) {
        None => None,
        Some(after) => {
            proof {
                lemma_find_seq(after@, seq![':']);
            }
            match find_char(&after, ':') {
                None => None,
                Some(c) => {
                    let n = after.len();
                    let rest = sub_chars(&after, c + 1, n);
                    Some(trim_start_chars(&rest))
                },
            }
        },
    }
}

/// A double-quoted value at the start of `v`.
pub fn read_leading_quoted(v: &Vec<char>) -> (r: Option<String>)
    ensures
        opt_string(r) == leading_quoted(v@),
{
    if v.len() > 0 && v[0] == '"' {
        let rest = sub_chars(v, 1, v.len());
        proof {
            lemma_find_seq(rest@, seq!['"']);
        }
        match find_char(&rest, '"') {
            Some(e) => Some(string_from(&rest, 0, e)),
            None => None,
        }
    } else {
        None
    }
}

/// The string value of `field`.
pub fn read_string_field(payload: &Vec<char>, field: &str) -> (r: Option<String>)
    ensures
        opt_string(r) == string_field(payload@, field@),
{
    match read_value_text(payload, field) {
        None => None,
        Some(v) => read_leading_quoted(&v),
    }
}

/// The ASCII digits at the start of `s`.
pub fn read_leading_digits(s: &Vec<char>) -> (r: Vec<char>)
    ensures
        r@ == leading_digits(s@),
        forall|i: int| 0 <= i < r@.len() ==> is_digit(#[trigger] r@[i]),
{
    let mut n: usize = 0;
    while n < s.len() && is_digit_char(s[n])
        invariant
            n <= s.len(),
            forall|i: int| 0 <= i < n ==> is_digit(#[trigger] s@[i]),
        decreases s.len() - n,
    {
        n = n + 1;
    }
    proof {
        lemma_leading_digits(s@, n as int);
    }
    let r = sub_chars(s, 0, n);
    assert(r@ =~= leading_digits(s@));
    r
}

/// `str::parse` of an unsigned integer no greater than `max`, on ASCII digits.
pub fn parse_digits(d: &Vec<char>, max: u64) -> (r: Option<u64>)
    requires
        forall|i: int| 0 <= i < d@.len() ==> is_digit(#[trigger] d@[i]),
    ensures
        opt_nat_u64(r) == parse_decimal(d@, max as nat),
{
    if d.len() == 0 {
        return None;
    }
    let mut value: u64 = 0;
    let mut i: usize = 0;
    while i < d.len()
        invariant
            i <= d.len(),
            value <= max,
            value == decimal_value(d@.take(i as int)),
            forall|k: int| 0 <= k < d@.len() ==> is_digit(#[trigger] d@[k]),
        decreases d.len() - i,
    {
        assert(d@.take(i + 1).drop_last() =~= d@.take(i as int));
        let digit = ((d[i] as u32) - 48) as u64;
        assert(is_digit(d@[i as int]));
        if digit > max || value > (max - digit) / 10 {
            proof {
                assert(value * 10 + digit > max) by (nonlinear_arith)
                    requires
                        digit > max || value > (max - digit) / 10,
                ;
                lemma_decimal_prefix_monotone(d@, i + 1);
            }
            return None;
        }
        proof {
            assert(value * 10 + digit <= max) by (nonlinear_arith)
                requires
                    value <= (max - digit) / 10,
                    digit <= max,
            ;
        }
        value = value * 10 + digit;
        i = i + 1;
    }
    assert(d@.take(d@.len() as int) =~= d@);
    Some(value)
}

/// The unsigned number value of `field`.
pub fn read_number_field(payload: &Vec<char>, field: &str, max: u64) -> (r: Option<u64>)
    ensures
        opt_nat_u64(r) == number_field(payload@, field@, max as nat),
{
    match read_value_text(payload, field) {
        None => None,
        Some(v) => {
            let d = read_leading_digits(&v);
            parse_digits(&d, max)
        },
    }
}

/// `true` or `false` as the value of `field`.
pub fn read_bool_field(payload: &Vec<char>, field: &str) -> (r: Option<bool>)
    ensures
        r == bool_field(payload@, field@),
{
    match read_value_text(payload, field) {
        None => None,
        Some(v) => {
            let t = vec!['t', 'r', 'u', 'e'];
            let f = vec!['f', 'a', 'l', 's', 'e'];
            assert(t@ =~= seq!['t', 'r', 'u', 'e']);
            assert(f@ =~= seq!['f', 'a', 'l', 's', 'e']);
            if starts_with_chars(&v, &t) {
                Some(true)
            } else if starts_with_chars(&v, &f) {
                Some(false)
            } else {
                None
            }
        },
    }
}

/// The text between the `[` after `"field"` and the next `]`.
pub fn read_array_body(payload: &Vec<char>, field: &str) -> (r: Option<Vec<char>>)
    ensures
        opt_seq(r) == array_body(payload@, field@),
{
    match read_after_marker(payload, field) {
        None => None,
        Some(after) => {
            proof {
                lemma_find_seq(after@, seq!['[']);
            }
            let found = find_char(&after, '[');
            match found {
                None => None,
                Some(a) => {
                    let n = after.len();
                    let rest = sub_chars(&after, a + 1, n);
                    assert(rest@ =~= after@.skip(a + 1));
                    proof {
                        lemma_find_seq(rest@, seq![']']);
                    }
                    match find_char(&rest, ']') {
                        None => None,
                        Some(e) => {
                            let body = sub_chars(&rest, 0, e);
                            assert(body@ =~= rest@.take(e as int));
                            Some(body)
                        },
                    }
                },
            }
        },
    }
}

/// The element of an array part, `None` when it is not a quoted string.
fn read_quoted_element(part: &Vec<char>) -> (r: Option<String>)
    ensures
        opt_string(r) == quoted_element(part@),
{
    let t = trim_chars(part);
    if t.len() >= 2 && t[0] == '"' && t[t.len() - 1] == '"' {
        Some(string_from(&t, 1, t.len() - 1))
    } else {
        None
    }
}

/// The string-array value of `field`.
pub fn read_string_array_field(payload: &Vec<char>, field: &str) -> (r: Option<Vec<String>>)
    ensures
        opt_strings(r) == string_array_field(payload@, field@),
{
    let body = match read_array_body(payload, field) {
        None => { return None; },
        Some(b) => b,
    };
    let mut values: Vec<String> = Vec::new();
    let mut rest = body;
    loop
        invariant
            string_array_field(payload@, field@) == prepend_values(
                strings_view(values@),
                array_elements(split_on(rest@, ',')),
            ),
        decreases rest@.len(),
    {
        let ghost parts = split_on(rest@, ',');
        let found = find_char(&rest, ',');
        let n = rest.len();
        let part: Vec<char>;
        let next: Option<Vec<char>>;
        match found {
            None => {
                part = sub_chars(&rest, 0, n);
                next = None;
                assert(part@ =~= rest@);
                assert(parts == seq![rest@]);
            },
            Some(i) => {
                part = sub_chars(&rest, 0, i);
                next = Some(sub_chars(&rest, i + 1, n));
                assert(part@ =~= rest@.take(i as int));
                assert(parts == seq![rest@.take(i as int)] + split_on(rest@.skip(i + 1), ','));
                assert(parts.drop_first() =~= split_on(next->0@, ','));
            },
        }
        assert(parts[0] == part@);
        let t = trim_chars(&part);
        let ghost before = strings_view(values@);
        if t.len() != 0 {
            match read_quoted_element(&part) {
                None => {
                    return None;
                },
                Some(v) => {
                    values.push(v);
                    assert(strings_view(values@) =~= before + seq![v@]);
                    proof {
                        lemma_prepend_assoc(before, seq![v@], array_elements(parts.drop_first()));
                    }
                },
            }
        }
        match next {
            None => {
                assert(parts.drop_first() =~= Seq::<Seq<char>>::empty());
                assert(strings_view(values@) + Seq::<Seq<char>>::empty() =~= strings_view(values@));
                return Some(values);
            },
            Some(nx) => {
                rest = nx;
            },
        }
    }
}

proof fn lemma_prepend_assoc(a: Seq<Seq<char>>, b: Seq<Seq<char>>, x: Option<Seq<Seq<char>>>)
    ensures
        prepend_values(a, prepend_values(b, x)) == prepend_values(a + b, x),
{
    if let Some(r) = x {
        assert(a + (b + r) =~= (a + b) + r);
    }
}

} // verus!
