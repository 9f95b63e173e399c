//! Splitting one record into its integer fields.
//!
//! A record is a line of comma-separated fields. Each field may be padded
//! with white space; fields that are empty after trimming are skipped; every
//! other field must be a base-10 integer that fits in an `i32`.

use crate::text::{
    decimal_text, digit_char, digits_of, find_char, lemma_find_char, lemma_find_char_is, str_chars,
    string_from_chars,
};
use vstd::prelude::*;

verus! {

/// The character that separates two fields of a record.
pub const SEPARATOR: char = ',';

/// Whether `c` is white space (the Unicode property `White_Space`).
pub open spec fn is_space(c: char) -> bool {
    let code = c as u32;
    ||| 0x09 <= code <= 0x0D
    ||| code == 0x20
    ||| code == 0x85
    ||| code == 0xA0
    ||| code == 0x1680
    ||| 0x2000 <= code <= 0x200A
    ||| code == 0x2028
    ||| code == 0x2029
    ||| code == 0x202F
    ||| code == 0x205F
    ||| code == 0x3000
}

/// `s` without the white space at its start.
pub open spec fn trim_start(s: Seq<char>) -> Seq<char>
    decreases s.len(),
{
    if s.len() > 0 && is_space(s.first()) {
        trim_start(s.drop_first())
    } else {
        s
    }
}

/// `s` without the white space at its end.
pub open spec fn trim_end(s: Seq<char>) -> Seq<char>
    decreases s.len(),
{
    if s.len() > 0 && is_space(s.last()) {
        trim_end(s.drop_last())
    } else {
        s
    }
}

/// `s` without the white space at either end.
pub open spec fn trim(s: Seq<char>) -> Seq<char> {
    trim_end(trim_start(s))
}

/// The fields of a record: the stretches of text between its separators.
/// A record with `n` separators has `n + 1` fields, some of them possibly
/// empty.
pub open spec fn split_fields(record: Seq<char>) -> Seq<Seq<char>>
    decreases record.len(),
{
    let end = find_char(record, SEPARATOR);
    if 0 <= end < record.len() {
        seq![record.take(end)] + split_fields(record.skip(end + 1))
    } else {
        seq![record]
    }
}

/// The predicate that keeps the fields with text in them.
pub open spec fn has_text() -> spec_fn(Seq<char>) -> bool {
    |field: Seq<char>| field.len() > 0
}

/// The tokens of a record: its fields, trimmed, without the empty ones.
pub open spec fn tokens(record: Seq<char>) -> Seq<Seq<char>> {
    split_fields(record).map_values(|field: Seq<char>| trim(field)).filter(has_text())
}

/// Whether `c` is one of the digits `0` to `9`.
pub open spec fn is_digit(c: char) -> bool {
    '0' as u32 <= c as u32 <= '9' as u32
}

/// The number that a string of digits spells in base 10.
pub open spec fn digits_value(digits: Seq<char>) -> int
    decreases digits.len(),
{
    if digits.len() == 0 {
        0
    } else {
        10 * digits_value(digits.drop_last()) + (digits.last() as u32 - '0' as u32)
    }
}

/// Whether `s` holds digits only.
pub open spec fn all_digits(s: Seq<char>) -> bool {
    forall|i: int| 0 <= i < s.len() ==> is_digit(#[trigger] s[i])
}

/// The integer that `token` spells: an optional sign, `+` or `-`, and then
/// one digit or more. Any other text spells none.
pub open spec fn parse_int(token: Seq<char>) -> Option<int> {
    let signed = token.len() > 0 && (token[0] == '-' || token[0] == '+');
    let digits = if signed {
        token.drop_first()
    } else {
        token
    };
    if digits.len() > 0 && all_digits(digits) {
        if signed && token[0] == '-' {
            Some(-digits_value(digits))
        } else {
            Some(digits_value(digits))
        }
    } else {
        None
    }
}

/// The field value that `token` spells, where it spells an integer that an
/// `i32` can hold.
pub open spec fn parse_i32(token: Seq<char>) -> Option<i32> {
    match parse_int(token) {
        Some(value) if i32::MIN <= value <= i32::MAX => Some(value as i32),
        _ => None,
    }
}

/// The index of the first token that spells no field value, or
/// `tokens.len()` when all of them do.
pub open spec fn first_invalid(tokens: Seq<Seq<char>>) -> int
    decreases tokens.len(),
{
    if tokens.len() == 0 || parse_i32(tokens[0]) is None {
        0
    } else {
        1 + first_invalid(tokens.drop_first())
    }
}

/// The field values that a sequence of valid tokens spells.
pub open spec fn token_values(tokens: Seq<Seq<char>>) -> Seq<i32> {
    tokens.map_values(|token: Seq<char>| parse_i32(token).unwrap())
}

/// What tokenizing `record` gives: the values of its tokens in order, or
/// the first token that spells none.
pub open spec fn record_values(record: Seq<char>) -> Result<Seq<i32>, Seq<char>> {
    let tokens = tokens(record);
    let bad = first_invalid(tokens);
    if 0 <= bad < tokens.len() {
        Err(tokens[bad])
    } else {
        Ok(token_values(tokens))
    }
}

/// A field that is no integer.
#[derive(Debug)]
pub struct ParseError {
    /// The offending token, trimmed.
    pub token: String,
}

/// Whether `c` is white space.
pub fn is_space_char(c: char) -> (space: bool)
    ensures
        space == is_space(c),
{
    let code = c as u32;
    (0x09 <= code && code <= 0x0D) || code == 0x20 || code == 0x85 || code == 0xA0 || code
        == 0x1680 || (0x2000 <= code && code <= 0x200A) || code == 0x2028 || code == 0x2029
        || code == 0x202F || code == 0x205F || code == 0x3000
}

/// Cutting `k` leading white-space characters, where the next character is
/// none, is `trim_start`.
proof fn lemma_trim_start_is(s: Seq<char>, k: int)
    requires
        0 <= k <= s.len(),
        forall|j: int| 0 <= j < k ==> is_space(s[j]),
        k < s.len() ==> !is_space(s[k]),
    ensures
        trim_start(s) == s.skip(k),
    decreases k,
{
    if k == 0 {
        assert(s.skip(0) =~= s);
    } else {
        let rest = s.drop_first();
        assert forall|j: int| 0 <= j < k - 1 implies is_space(rest[j]) by {
            assert(rest[j] == s[j + 1]);
        }
        lemma_trim_start_is(rest, k - 1);
        assert(rest.skip(k - 1) =~= s.skip(k));
    }
}

/// Keeping the first `k` characters, where those behind them are white
/// space and the one before them is none, is `trim_end`.
proof fn lemma_trim_end_is(s: Seq<char>, k: int)
    requires
        0 <= k <= s.len(),
        forall|j: int| k <= j < s.len() ==> is_space(s[j]),
        k > 0 ==> !is_space(s[k - 1]),
    ensures
        trim_end(s) == s.take(k),
    decreases s.len() - k,
{
    if k == s.len() {
        assert(s.take(k) =~= s);
    } else {
        let rest = s.drop_last();
        lemma_trim_end_is(rest, k);
        assert(rest.take(k) =~= s.take(k));
    }
}

/// The bounds of `chars[from..to]` without the white space at its ends.
fn trim_range(chars: &Vec<char>, from: usize, to: usize) -> (bounds: (usize, usize))
    requires
        from <= to <= chars.len(),
    ensures
        from <= bounds.0 <= bounds.1 <= to,
        chars@.subrange(bounds.0 as int, bounds.1 as int) == trim(
            chars@.subrange(from as int, to as int),
        ),
{
    let ghost field = chars@.subrange(from as int, to as int);
    let mut a: usize = from;
    while a < to && is_space_char(chars[a])
        invariant
            from <= a <= to <= chars.len(),
            forall|j: int| from <= j < a ==> is_space(chars@[j]),
        decreases to - a,
    {
        a += 1;
    }
    let mut b: usize = to;
    while b > a && is_space_char(chars[b - 1])
        invariant
            a <= b <= to <= chars.len(),
            forall|j: int| b <= j < to ==> is_space(chars@[j]),
        decreases b,
    {
        b -= 1;
    }
    proof {
        lemma_trim_start_is(field, a - from);
        let inner = field.skip(a - from);
        assert(inner =~= chars@.subrange(a as int, to as int));
        lemma_trim_end_is(inner, b - a);
        assert(inner.take(b - a) =~= chars@.subrange(a as int, b as int));
    }
    (a, b)
}

/// A string of digits spells at least what any of its prefixes spells.
proof fn lemma_digits_value_grows(digits: Seq<char>, k: int)
    requires
        all_digits(digits),
        0 <= k <= digits.len(),
    ensures
        0 <= digits_value(digits.take(k)) <= digits_value(digits),
    decreases digits.len(),
{
    if k == digits.len() {
        assert(digits.take(k) =~= digits);
        if k > 0 {
            assert(is_digit(digits[k - 1]));
            lemma_digits_value_grows(digits.drop_last(), k - 1);
        }
    } else {
        assert(is_digit(digits[digits.len() - 1]));
        lemma_digits_value_grows(digits.drop_last(), k);
        assert(digits.drop_last().take(k) =~= digits.take(k));
    }
}

/// The field value that `chars[from..to]` spells.
pub fn parse_range(chars: &Vec<char>, from: usize, to: usize) -> (value: Option<i32>)
    requires
        from <= to <= chars.len(),
    ensures
        value == parse_i32(chars@.subrange(from as int, to as int)),
{
    let ghost token = chars@.subrange(from as int, to as int);
    if from == to {
        return None;
    }
    let sign = chars[from];
    let negative = sign == '-';
    let start: usize = if sign == '-' || sign == '+' {
        from + 1
    } else {
        from
    };
    let ghost digits = chars@.subrange(start as int, to as int);
    proof {
        if start > from {
            assert(digits =~= token.drop_first());
        } else {
            assert(digits =~= token);
        }
        assert(digits.take(0) =~= Seq::<char>::empty());
    }
    if start == to {
        return None;
    }
    let mut magnitude: i64 = 0;
    let mut i: usize = start;
    while i < to
        invariant
            from <= start <= i <= to <= chars.len(),
            token == chars@.subrange(from as int, to as int),
            digits == chars@.subrange(start as int, to as int),
            digits == if token[0] == '-' || token[0] == '+' {
                token.drop_first()
            } else {
                token
            },
            all_digits(digits.take(i - start)),
            magnitude == digits_value(digits.take(i - start)),
            0 <= magnitude <= 2147483648,
        decreases to - i,
    {
        let code = chars[i] as u32;
        if code < 48 || code > 57 {
            assert(!is_digit(digits[i - start]));
            return None;
        }
        let ghost before = digits.take(i - start);
        magnitude = magnitude * 10 + (code - 48) as i64;
        i += 1;
        proof {
            let now = digits.take(i - start);
            assert(now.drop_last() =~= before);
            assert(now.last() == chars@[i - 1]);
            assert forall|j: int| 0 <= j < now.len() implies is_digit(#[trigger] now[j]) by {
                if j < before.len() {
                    assert(now[j] == before[j]);
                }
            }
        }
        if magnitude > 2147483648 {
            proof {
                if all_digits(digits) {
                    lemma_digits_value_grows(digits, i - start);
                }
            }
            return None;
        }
    }
    assert(digits.take(to - start) =~= digits);
    if negative {
        Some((0 - magnitude) as i32)
    } else if magnitude <= 2147483647 {
        Some(magnitude as i32)
    } else {
        None
    }
}

/// The digits of a number spell that number.
pub proof fn lemma_digits_of_spell(n: nat)
    ensures
        digits_of(n).len() > 0,
        all_digits(digits_of(n)),
        digits_value(digits_of(n)) == n,
    decreases n,
{
    let digits = digits_of(n);
    if n < 10 {
        assert(digits.drop_last() =~= Seq::<char>::empty());
        assert(digits.last() == digit_char(n));
        assert(digits_value(digits.drop_last()) == 0);
    } else {
        lemma_digits_of_spell(n / 10);
        assert(digits.drop_last() =~= digits_of(n / 10));
        assert(digits.last() == digit_char(n % 10));
        assert forall|i: int| 0 <= i < digits.len() implies is_digit(#[trigger] digits[i]) by {
            if i < digits.len() - 1 {
                assert(digits[i] == digits_of(n / 10)[i]);
            }
        }
    }
}

/// Writing an integer in base 10 and reading the text again gives the
/// integer.
pub proof fn lemma_decimal_text_parses(n: int)
    ensures
        parse_int(decimal_text(n)) == Some(n),
        i32::MIN <= n <= i32::MAX ==> parse_i32(decimal_text(n)) == Some(n as i32),
{
    if n < 0 {
        lemma_digits_of_spell((-n) as nat);
        assert(decimal_text(n).drop_first() =~= digits_of((-n) as nat));
    } else {
        lemma_digits_of_spell(n as nat);
        assert(is_digit(digits_of(n as nat)[0]));
    }
}

/// The tokens of a record are the token of its first field, if that field
/// has text, followed by the tokens of what stands behind the first
/// separator.
proof fn lemma_tokens_unfold(record: Seq<char>)
    ensures
        ({
            let end = find_char(record, SEPARATOR);
            let first = trim(record.take(end));
            let head = if first.len() > 0 {
                seq![first]
            } else {
                Seq::empty()
            };
            tokens(record) == if end < record.len() {
                head + tokens(record.skip(end + 1))
            } else {
                head
            }
        }),
{
    reveal_with_fuel(Seq::filter, 2);
    lemma_find_char(record, SEPARATOR);
    let end = find_char(record, SEPARATOR);
    let first = trim(record.take(end));
    let trimmed = |field: Seq<char>| trim(field);
    let single = seq![record.take(end)].map_values(trimmed);
    assert(single =~= seq![first]);
    assert(single.drop_last() =~= Seq::<Seq<char>>::empty());
    assert(single.last() == first);
    if end < record.len() {
        let rest = split_fields(record.skip(end + 1));
        assert(split_fields(record).map_values(trimmed) =~= single + rest.map_values(trimmed));
        Seq::filter_distributes_over_add(single, rest.map_values(trimmed), has_text());
    } else {
        assert(record.take(end) =~= record);
    }
}

/// The only index that valid tokens alone precede and that holds an
/// invalid one (or is the end) is `first_invalid`.
proof fn lemma_first_invalid_is(tokens: Seq<Seq<char>>, k: int)
    requires
        0 <= k <= tokens.len(),
        forall|j: int| 0 <= j < k ==> parse_i32(#[trigger] tokens[j]) is Some,
        k < tokens.len() ==> parse_i32(tokens[k]) is None,
    ensures
        first_invalid(tokens) == k,
    decreases k,
{
    if k > 0 {
        let rest = tokens.drop_first();
        assert(parse_i32(tokens[0]) is Some);
        assert forall|j: int| 0 <= j < k - 1 implies parse_i32(#[trigger] rest[j]) is Some by {
            assert(rest[j] == tokens[j + 1]);
        }
        lemma_first_invalid_is(rest, k - 1);
    }
}

/// Splits `record` into its field values.
///
/// Returns the values of the tokens in the order of the record. A record
/// without tokens (empty, white space or separators only) gives no values.
/// If a token is no integer of 32 bits, the first such token is returned in
/// the error and no value is.
pub fn tokenize(record: &str) -> (result: Result<Vec<i32>, ParseError>)
    ensures
        match result {
            Ok(values) => record_values(record@) == Ok::<Seq<i32>, Seq<char>>(values@),
            Err(error) => record_values(record@) == Err::<Seq<i32>, Seq<char>>(error.token@),
        },
{
    let chars = str_chars(record);
    let n = chars.len();
    let mut values: Vec<i32> = Vec::new();
    let ghost mut done: Seq<Seq<char>> = Seq::empty();
    let mut pos: usize = 0;
    proof {
        assert(chars@.skip(0) =~= chars@);
        assert(done + tokens(chars@) =~= tokens(chars@));
        assert(values@ =~= token_values(done));
    }
    loop
        invariant_except_break
            tokens(chars@) == done + tokens(chars@.skip(pos as int)),
        invariant
            chars@ == record@,
            n == chars.len(),
            pos <= n,
            forall|j: int| 0 <= j < done.len() ==> parse_i32(#[trigger] done[j]) is Some,
            values@ == token_values(done),
        ensures
            tokens(chars@) == done,
        decreases n - pos,
    {
        let ghost rest = chars@.skip(pos as int);
        let mut end: usize = pos;
        while end < n && chars[end] != SEPARATOR
            invariant
                pos <= end <= n,
                n == chars.len(),
                forall|j: int| pos <= j < end ==> chars@[j] != SEPARATOR,
            decreases n - end,
        {
            end += 1;
        }
        let (a, b) = trim_range(&chars, pos, end);
        let ghost token = chars@.subrange(a as int, b as int);
        proof {
            lemma_find_char_is(rest, SEPARATOR, end - pos);
            lemma_tokens_unfold(rest);
            assert(rest.take(end - pos) =~= chars@.subrange(pos as int, end as int));
            if end < n {
                assert(rest.skip(end - pos + 1) =~= chars@.skip(end as int + 1));
            }
        }
        if a < b {
            match parse_range(&chars, a, b) {
                Some(value) => {
                    values.push(value);
                    proof {
                        let tail = if end < n {
                            tokens(chars@.skip(end as int + 1))
                        } else {
                            Seq::empty()
                        };
                        assert(done + (seq![token] + tail) =~= done.push(token) + tail);
                        assert(token_values(done.push(token)) =~= token_values(done).push(value));
                        done = done.push(token);
                    }
                },
                None => {
                    let token_text = string_from_chars(&chars, a, b);
                    proof {
                        lemma_first_invalid_is(tokens(chars@), done.len() as int);
                    }
                    return Err(ParseError { token: token_text });
                },
            }
        }
        if end >= n {
            proof {
                assert(done + Seq::<Seq<char>>::empty() =~= done);
            }
            break ;
        }
        pos = end + 1;
    }
    proof {
        lemma_first_invalid_is(done, done.len() as int);
    }
    Ok(values)
}

} // verus!
