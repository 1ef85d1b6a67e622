use vstd::prelude::*;
use vstd::std_specs::iter::IteratorSpec;

verus! {

/// The characters of `s`, in order.
pub(crate) fn chars_of(s: &str) -> (r: Vec<char>)
    ensures
        r@ == s@,
{
    broadcast use vstd::string::group_string_axioms;

    let mut it = s.chars();
    let mut r: Vec<char> = Vec::new();
    loop
        invariant
            r@ + it.remaining() == s@,
            it.decrease() is Some,
        decreases it.decrease()->0,
    {
        match it.next() {
            Some(c) => {
                r.push(c);
            },
            None => {
                assert(r@ =~= s@);
                return r;
            },
        }
    }
}

/// Relies on `String`'s `FromIterator<char>`: the string made of the characters of `v`, in order.
#[verifier::external_body]
pub(crate) fn string_of(v: &Vec<char>) -> (r: String)
    ensures
        r@ == v@,
{
    v.iter().collect()
}

/// Whether two character vectors hold the same characters.
pub fn same_chars(a: &Vec<char>, b: &Vec<char>) -> (r: bool)
    ensures
        r == (a@ == b@),
{
    if a.len() != b.len() {
        return false;
    }
    let mut i: usize = 0;
    while i < a.len()
        invariant
            a@.len() == b@.len(),
            i <= a@.len(),
            forall|j: int| 0 <= j < i ==> a@[j] == b@[j],
        decreases a@.len() - i,
    {
        if a[i] != b[i] {
            return false;
        }
        i = i + 1;
    }
    assert(a@ =~= b@);
    true
}

/// Whether `char::is_numeric` holds of a character outside ASCII.
pub uninterp spec fn unicode_numeric(c: char) -> bool;

/// Whether `char::is_alphanumeric` holds of a character outside ASCII.
pub uninterp spec fn unicode_alphanumeric(c: char) -> bool;

/// A numeric character: in ASCII exactly the digits `0`-`9`, elsewhere one
/// of Unicode's numeric general categories.
pub open spec fn continues_number(c: char) -> bool {
    if c <= '\x7F' {
        '0' <= c <= '9'
    } else {
        unicode_numeric(c)
    }
}

/// An alphanumeric character: in ASCII exactly the letters and digits,
/// elsewhere a character with Unicode's Alphabetic property or a numeric
/// general category.
pub open spec fn continues_word(c: char) -> bool {
    if c <= '\x7F' {
        'a' <= c <= 'z' || 'A' <= c <= 'Z' || '0' <= c <= '9'
    } else {
        unicode_alphanumeric(c)
    }
}

/// Relies on `char::is_numeric`: numeric general categories (Nd, Nl, No),
/// which within ASCII are the digits `0`-`9` only.
#[verifier::external_body]
pub(crate) fn char_is_numeric(c: char) -> (r: bool)
    ensures
        r == if c <= '\x7F' {
            '0' <= c <= '9'
        } else {
            unicode_numeric(c)
        },
        r == continues_number(c),
{
    c.is_numeric()
}

/// Relies on `char::is_alphanumeric`: `is_alphabetic() || is_numeric()`,
/// which within ASCII holds of the letters and digits only.
#[verifier::external_body]
pub(crate) fn char_is_alphanumeric(c: char) -> (r: bool)
    ensures
        r == if c <= '\x7F' {
            'a' <= c <= 'z' || 'A' <= c <= 'Z' || '0' <= c <= '9'
        } else {
            unicode_alphanumeric(c)
        },
        r == continues_word(c),
{
    c.is_alphanumeric()
}

/// The ASCII digit for a value below ten.
pub open spec fn digit_char(d: nat) -> char {
    ((48 + d) as u8) as char
}

/// The decimal notation of a natural number, without leading zeros.
pub open spec fn decimal(n: nat) -> Seq<char>
    decreases n,
{
    if n < 10 {
        seq![digit_char(n)]
    } else {
        decimal(n / 10).push(digit_char(n % 10))
    }
}

/// The decimal notation of an integer, with a leading `-` when it is negative.
pub open spec fn signed_decimal(v: int) -> Seq<char> {
    if v < 0 {
        seq!['-'] + decimal((-v) as nat)
    } else {
        decimal(v as nat)
    }
}

/// Appends the decimal notation of `n` to `out`.
pub fn push_decimal(out: &mut Vec<char>, n: u64)
    ensures
        final(out)@ == old(out)@ + decimal(n as nat),
    decreases n,
{
    if n >= 10 {
        push_decimal(out, n / 10);
    }
    let d: u8 = (n % 10) as u8;
    out.push((48u8 + d) as char);
    assert(decimal(n as nat) == if n < 10 {
        seq![digit_char(n as nat)]
    } else {
        decimal((n / 10) as nat).push(digit_char((n % 10) as nat))
    });
}

/// Appends the signed decimal notation of `v` to `out`.
pub fn push_signed_decimal(out: &mut Vec<char>, v: i64)
    ensures
        final(out)@ == old(out)@ + signed_decimal(v as int),
{
    if v < 0 {
        out.push('-');
        let magnitude: u64 = ((0 - (v + 1)) as u64) + 1;
        push_decimal(out, magnitude);
        assert(out@ =~= old(out)@ + signed_decimal(v as int));
    } else {
        push_decimal(out, v as u64);
    }
}

} // verus!

verus! {

/// An ASCII decimal digit.
pub open spec fn is_digit(c: char) -> bool {
    '0' <= c <= '9'
}

/// The value of a decimal digit.
pub open spec fn digit_value(c: char) -> int {
    c as int - '0' as int
}

/// The value of a sequence of decimal digits.
pub open spec fn decimal_value(s: Seq<char>) -> int
    decreases s.len(),
{
    if s.len() == 0 {
        0
    } else {
        decimal_value(s.drop_last()) * 10 + digit_value(s.last())
    }
}

/// The value written by `s` when it is a non-empty run of decimal digits whose
/// value fits in an `i64`.
pub open spec fn number_value(s: Seq<char>) -> Option<int> {
    if s.len() > 0 && (forall|i: int| 0 <= i < s.len() ==> is_digit(#[trigger] s[i]))
        && decimal_value(s) <= i64::MAX {
        Some(decimal_value(s))
    } else {
        None
    }
}

proof fn lemma_decimal_value_grows(s: Seq<char>, i: int, j: int)
    requires
        0 <= i <= j <= s.len(),
        forall|k: int| 0 <= k < s.len() ==> is_digit(#[trigger] s[k]),
    ensures
        0 <= decimal_value(s.subrange(0, i)) <= decimal_value(s.subrange(0, j)),
    decreases j,
{
    if j > 0 {
        assert(s.subrange(0, j).drop_last() =~= s.subrange(0, j - 1));
        if i < j {
            lemma_decimal_value_grows(s, i, j - 1);
        } else {
            lemma_decimal_value_grows(s, j - 1, j - 1);
        }
    } else {
        assert(s.subrange(0, 0).len() == 0);
    }
}

/// Reads a decimal literal: `Some` of its value exactly when `s` is a
/// non-empty run of digits whose value fits in an `i64`.
pub fn parse_decimal(s: &String) -> (r: Option<i64>)
    ensures
        match number_value(s@) {
            Some(v) => r == Some(v as i64),
            None => r is None,
        },
{
    let cs = chars_of(s.as_str());
    if cs.len() == 0 {
        return None;
    }
    let mut i: usize = 0;
    while i < cs.len()
        invariant
            cs@ == s@,
            i <= cs@.len(),
            forall|k: int| 0 <= k < i ==> is_digit(#[trigger] cs@[k]),
        decreases cs@.len() - i,
    {
        if !('0' <= cs[i] && cs[i] <= '9') {
            return None;
        }
        i = i + 1;
    }
    let mut value: i64 = 0;
    let mut i: usize = 0;
    while i < cs.len()
        invariant
            cs@ == s@,
            cs@.len() > 0,
            i <= cs@.len(),
            forall|k: int| 0 <= k < cs@.len() ==> is_digit(#[trigger] cs@[k]),
            value as int == decimal_value(cs@.subrange(0, i as int)),
        decreases cs@.len() - i,
    {
        let d: i64 = (cs[i] as u32 - '0' as u32) as i64;
        assert(cs@.subrange(0, i + 1).drop_last() =~= cs@.subrange(0, i as int));
        if value > (i64::MAX - d) / 10 {
            proof {
                lemma_decimal_value_grows(cs@, i + 1, cs@.len() as int);
                assert(cs@.subrange(0, cs@.len() as int) =~= cs@);
            }
            return None;
        }
        proof {
            lemma_decimal_value_grows(cs@, i as int, i as int);
            assert(value * 10 + d <= i64::MAX) by (nonlinear_arith)
                requires
                    value <= (i64::MAX - d) / 10,
                    0 <= d <= 9,
                    value >= 0,
            ;
        }
        value = value * 10 + d;
        i = i + 1;
    }
    assert(cs@.subrange(0, cs@.len() as int) =~= cs@);
    Some(value)
}

} // verus!
