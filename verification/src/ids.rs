//! UUID parsing and formatting through the `uuid` crate.

use vstd::prelude::*;

use crate::text::push_char;

verus! {

/// What `uuid::Uuid::parse_str(text)` gives: the 128-bit value, or the
/// error's message.
pub uninterp spec fn uuid_parse(text: Seq<char>) -> Result<u128, Seq<char>>;

/// Calls `uuid::Uuid::parse_str` (any of its accepted spellings). Trusted:
/// the value or the error text is the named `uuid_parse` of the input.
#[verifier::external_body]
pub(crate) fn parse_uuid(text: &str) -> (parsed: Result<u128, String>)
    ensures
        match parsed {
            Ok(value) => uuid_parse(text@) == Ok::<u128, Seq<char>>(value),
            Err(message) => uuid_parse(text@) == Err::<u128, Seq<char>>(message@),
        },
{
    match uuid::Uuid::parse_str(text) {
        Ok(id) => Ok(id.as_u128()),
        Err(error) => Err(error.to_string()),
    }
}

pub open spec fn hex_digit(nibble: u128) -> char {
    if nibble < 10 {
        ((nibble + 48) as u8) as char
    } else {
        ((nibble + 87) as u8) as char
    }
}

/// The 32 lowercase hex digits of a value, most significant first.
pub open spec fn hex_digits(value: u128) -> Seq<char> {
    Seq::new(32, |i: int| hex_digit(((value as int) / pow16(31 - i)) as u128 % 16))
}

pub open spec fn pow16(n: int) -> int
    decreases n,
{
    if n <= 0 {
        1
    } else {
        16 * pow16(n - 1)
    }
}

/// The hyphenated form `8-4-4-4-12` of the hex digits.
pub open spec fn hyphenated(value: u128) -> Seq<char> {
    let d = hex_digits(value);
    d.subrange(0, 8) + seq!['-'] + d.subrange(8, 12) + seq!['-'] + d.subrange(12, 16) + seq!['-']
        + d.subrange(16, 20) + seq!['-'] + d.subrange(20, 32)
}

proof fn lemma_pow16_positive(n: int)
    ensures
        pow16(n) > 0,
    decreases n,
{
    if n > 0 {
        lemma_pow16_positive(n - 1);
    }
}

/// The lowercase hex digit of a value below 16.
fn hex_char(nibble: u8) -> (c: char)
    requires
        nibble < 16,
    ensures
        c == hex_digit(nibble as u128),
{
    if nibble < 10 {
        (nibble + 48) as char
    } else {
        (nibble + 87) as char
    }
}

/// The lowercase hyphenated `8-4-4-4-12` form of a UUID, as `uuid`'s
/// `Display` writes it.
pub(crate) fn format_uuid(value: u128) -> (text: String)
    ensures
        text@ == hyphenated(value),
{
    let mut digits: Vec<char> = vec!['0'; 32];
    let mut v: u128 = value;
    let mut k: usize = 0;
    while k < 32
        invariant
            k <= 32,
            digits@.len() == 32,
            v as int == (value as int) / pow16(k as int),
            forall|i: int| 32 - k <= i < 32 ==> #[trigger] digits@[i] == hex_digits(value)[i],
        decreases 32 - k,
    {
        let d = (v % 16) as u8;
        proof {
            assert(hex_digits(value)[31 - k as int] == hex_digit(((value as int) / pow16(k as int)) as u128 % 16));
            lemma_pow16_positive(k as int);
            vstd::arithmetic::div_mod::lemma_div_denominator(value as int, pow16(k as int), 16);
            assert(pow16(k as int) * 16 == pow16(k + 1)) by (nonlinear_arith)
                requires
                    pow16(k + 1) == 16 * pow16(k as int),
            ;
        }
        digits.set(31 - k, hex_char(d));
        v = v / 16;
        k += 1;
    }
    let mut text = String::new();
    let mut i: usize = 0;
    while i < 32
        invariant
            i <= 32,
            digits@ == hex_digits(value),
            text@ == hyphenated_prefix(hex_digits(value), i as int),
        decreases 32 - i,
    {
        if i == 8 || i == 12 || i == 16 || i == 20 {
            push_char(&mut text, '-');
        }
        push_char(&mut text, digits[i]);
        i += 1;
    }
    proof {
        let d = hex_digits(value);
        lemma_prefix_run(d, 0, 8);
        lemma_prefix_run(d, 8, 12);
        lemma_prefix_run(d, 12, 16);
        lemma_prefix_run(d, 16, 20);
        lemma_prefix_run(d, 20, 32);
        assert(hyphenated_prefix(d, 0) =~= Seq::<char>::empty());
        assert(hyphenated_prefix(d, 32) =~= hyphenated(value));
    }
    text
}

/// Between two hyphen positions the digits follow one another.
proof fn lemma_prefix_run(digits: Seq<char>, a: int, b: int)
    requires
        0 <= a < b <= digits.len(),
        !(a < 8 < b) && !(a < 12 < b) && !(a < 16 < b) && !(a < 20 < b),
    ensures
        hyphenated_prefix(digits, b) == hyphenated_prefix(digits, a + 1) + digits.subrange(a + 1, b),
    decreases b - a,
{
    if b == a + 1 {
        assert(digits.subrange(a + 1, b) =~= Seq::<char>::empty());
        assert(hyphenated_prefix(digits, a + 1) + Seq::<char>::empty() =~= hyphenated_prefix(digits, a + 1));
    } else {
        lemma_prefix_run(digits, a, b - 1);
        assert(hyphenated_prefix(digits, a + 1) + digits.subrange(a + 1, b) =~= (hyphenated_prefix(digits, a + 1)
            + digits.subrange(a + 1, b - 1)).push(digits[b - 1]));
    }
}

/// The first `n` digits with the hyphens that come before them.
pub open spec fn hyphenated_prefix(digits: Seq<char>, n: int) -> Seq<char>
    decreases n,
{
    if n <= 0 {
        Seq::empty()
    } else {
        let before = hyphenated_prefix(digits, n - 1);
        let k = n - 1;
        if k == 8 || k == 12 || k == 16 || k == 20 {
            before.push('-').push(digits[k])
        } else {
            before.push(digits[k])
        }
    }
}

} // verus!
