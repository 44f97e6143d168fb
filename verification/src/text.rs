//! Character-level text helpers shared by the validators: Unicode
//! whitespace, trimming, and conversion between strings and characters.

use vstd::prelude::*;

verus! {

broadcast use vstd::string::group_string_axioms;

/// The Unicode `White_Space` property, which `char::is_whitespace` tests.
pub open spec fn is_ws(c: char) -> bool {
    let u = c as u32;
    (0x09 <= u && u <= 0x0d) || u == 0x20 || u == 0x85 || u == 0xa0 || u == 0x1680 || (0x2000 <= u
        && u <= 0x200a) || u == 0x2028 || u == 0x2029 || u == 0x202f || u == 0x205f || u == 0x3000
}

pub fn is_whitespace(c: char) -> (b: bool)
    ensures
        b == is_ws(c),
{
    let u = c as u32;
    (0x09 <= u && u <= 0x0d) || u == 0x20 || u == 0x85 || u == 0xa0 || u == 0x1680 || (0x2000 <= u
        && u <= 0x200a) || u == 0x2028 || u == 0x2029 || u == 0x202f || u == 0x205f || u == 0x3000
}

/// Every character is whitespace (so the text trims to nothing).
pub open spec fn all_ws(s: Seq<char>) -> bool {
    forall|i: int| 0 <= i < s.len() ==> is_ws(#[trigger] s[i])
}

/// Number of leading whitespace characters.
pub open spec fn ws_prefix_len(s: Seq<char>) -> nat
    decreases s.len(),
{
    if s.len() == 0 {
        0
    } else if is_ws(s[0]) {
        1 + ws_prefix_len(s.subrange(1, s.len() as int))
    } else {
        0
    }
}

/// Number of trailing whitespace characters.
pub open spec fn ws_suffix_len(s: Seq<char>) -> nat
    decreases s.len(),
{
    if s.len() == 0 {
        0
    } else if is_ws(s[s.len() - 1]) {
        1 + ws_suffix_len(s.subrange(0, s.len() - 1))
    } else {
        0
    }
}

/// `str::trim_start`: drop leading Unicode whitespace.
pub open spec fn trim_start(s: Seq<char>) -> Seq<char> {
    s.subrange(ws_prefix_len(s) as int, s.len() as int)
}

/// `str::trim_end`: drop trailing Unicode whitespace.
pub open spec fn trim_end(s: Seq<char>) -> Seq<char> {
    s.subrange(0, s.len() - ws_suffix_len(s))
}

/// `str::trim`: drop leading and trailing Unicode whitespace.
pub open spec fn trim(s: Seq<char>) -> Seq<char> {
    trim_end(trim_start(s))
}

pub proof fn lemma_ws_prefix_len(s: Seq<char>, k: int)
    requires
        0 <= k <= s.len(),
        forall|i: int| 0 <= i < k ==> is_ws(#[trigger] s[i]),
        k == s.len() || !is_ws(s[k]),
    ensures
        ws_prefix_len(s) == k,
    decreases k,
{
    if k > 0 {
        let rest = s.subrange(1, s.len() as int);
        assert forall|i: int| 0 <= i < k - 1 implies is_ws(#[trigger] rest[i]) by {
            assert(rest[i] == s[i + 1]);
        }
        if k - 1 < rest.len() {
            assert(rest[k - 1] == s[k]);
        }
        lemma_ws_prefix_len(rest, k - 1);
    }
}

pub proof fn lemma_ws_suffix_len(s: Seq<char>, k: int)
    requires
        0 <= k <= s.len(),
        forall|i: int| s.len() - k <= i < s.len() ==> is_ws(#[trigger] s[i]),
        k == s.len() || !is_ws(s[s.len() - 1 - k]),
    ensures
        ws_suffix_len(s) == k,
    decreases k,
{
    if k > 0 {
        let rest = s.subrange(0, s.len() - 1);
        assert forall|i: int| rest.len() - (k - 1) <= i < rest.len() implies is_ws(
            #[trigger] rest[i],
        ) by {
            assert(rest[i] == s[i]);
        }
        if k - 1 < rest.len() {
            assert(rest[rest.len() - 1 - (k - 1)] == s[s.len() - 1 - k]);
        }
        lemma_ws_suffix_len(rest, k - 1);
    }
}

/// A text trims to nothing exactly when every character is whitespace.
pub proof fn lemma_trim_empty(s: Seq<char>)
    ensures
        (trim(s).len() == 0) == all_ws(s),
        all_ws(s) ==> trim_start(s).len() == 0,
{
    let a = ws_prefix_len(s);
    lemma_ws_prefix_bounds(s);
    let t = trim_start(s);
    lemma_ws_suffix_bounds(t);
    if all_ws(s) {
        lemma_ws_prefix_len(s, s.len() as int);
    } else {
        let i = choose|i: int| 0 <= i < s.len() && !is_ws(s[i]);
        assert(t.len() > 0);
        assert(!is_ws(t[0]));
        lemma_ws_suffix_exact(t);
    }
}

pub proof fn lemma_ws_prefix_bounds(s: Seq<char>)
    ensures
        ws_prefix_len(s) <= s.len(),
        forall|i: int| 0 <= i < ws_prefix_len(s) ==> is_ws(#[trigger] s[i]),
        ws_prefix_len(s) == s.len() || !is_ws(s[ws_prefix_len(s) as int]),
    decreases s.len(),
{
    if s.len() > 0 && is_ws(s[0]) {
        let rest = s.subrange(1, s.len() as int);
        lemma_ws_prefix_bounds(rest);
        assert forall|i: int| 0 <= i < ws_prefix_len(s) implies is_ws(#[trigger] s[i]) by {
            if i > 0 {
                assert(s[i] == rest[i - 1]);
            }
        }
        if ws_prefix_len(s) < s.len() {
            assert(s[ws_prefix_len(s) as int] == rest[ws_prefix_len(rest) as int]);
        }
    }
}

pub proof fn lemma_ws_suffix_bounds(s: Seq<char>)
    ensures
        ws_suffix_len(s) <= s.len(),
        forall|i: int| s.len() - ws_suffix_len(s) <= i < s.len() ==> is_ws(#[trigger] s[i]),
        ws_suffix_len(s) == s.len() || !is_ws(s[s.len() - 1 - ws_suffix_len(s)]),
    decreases s.len(),
{
    if s.len() > 0 && is_ws(s[s.len() - 1]) {
        let rest = s.subrange(0, s.len() - 1);
        lemma_ws_suffix_bounds(rest);
        assert forall|i: int| s.len() - ws_suffix_len(s) <= i < s.len() implies is_ws(
            #[trigger] s[i],
        ) by {
            if i < s.len() - 1 {
                assert(s[i] == rest[i]);
            }
        }
        if ws_suffix_len(s) < s.len() {
            assert(s[s.len() - 1 - ws_suffix_len(s)] == rest[rest.len() - 1 - ws_suffix_len(
                rest,
            )]);
        }
    }
}

proof fn lemma_ws_suffix_exact(t: Seq<char>)
    requires
        t.len() > 0,
        !is_ws(t[0]),
    ensures
        ws_suffix_len(t) < t.len(),
{
    lemma_ws_suffix_bounds(t);
}

/// Index of the first non-whitespace character (or the length).
pub fn ws_prefix_end(v: &Vec<char>) -> (k: usize)
    ensures
        k == ws_prefix_len(v@),
        k <= v@.len(),
{
    let mut k: usize = 0;
    while k < v.len() && is_whitespace(v[k])
        invariant
            k <= v@.len(),
            forall|i: int| 0 <= i < k ==> is_ws(#[trigger] v@[i]),
        decreases v@.len() - k,
    {
        k += 1;
    }
    proof {
        lemma_ws_prefix_len(v@, k as int);
    }
    k
}

/// Index just after the last non-whitespace character of `v[from..]`
/// (`from` itself when that part is all whitespace).
pub fn ws_suffix_start(v: &Vec<char>, from: usize) -> (k: usize)
    requires
        from <= v@.len(),
    ensures
        from <= k <= v@.len(),
        k == v@.len() - ws_suffix_len(v@.subrange(from as int, v@.len() as int)),
{
    let ghost t = v@.subrange(from as int, v@.len() as int);
    let mut k: usize = v.len();
    while k > from && is_whitespace(v[k - 1])
        invariant
            from <= k <= v@.len(),
            t == v@.subrange(from as int, v@.len() as int),
            forall|i: int| k <= i < v@.len() ==> is_ws(#[trigger] v@[i]),
        decreases k,
    {
        k -= 1;
    }
    proof {
        let n = v@.len() - k;
        assert forall|i: int| t.len() - n <= i < t.len() implies is_ws(#[trigger] t[i]) by {
            assert(t[i] == v@[from + i]);
        }
        if n < t.len() {
            assert(t[t.len() - 1 - n] == v@[k - 1]);
        }
        lemma_ws_suffix_len(t, n);
    }
    k
}

/// Whether every character is whitespace, i.e. `s.trim().is_empty()`.
pub fn is_blank(s: &str) -> (blank: bool)
    ensures
        blank == all_ws(s@),
        blank == (trim(s@).len() == 0),
{
    let v = chars_of(s);
    let mut k: usize = 0;
    while k < v.len()
        invariant
            v@ == s@,
            k <= v@.len(),
            forall|i: int| 0 <= i < k ==> is_ws(#[trigger] v@[i]),
        decreases v@.len() - k,
    {
        if !is_whitespace(v[k]) {
            proof {
                lemma_trim_empty(s@);
            }
            return false;
        }
        k += 1;
    }
    proof {
        lemma_trim_empty(s@);
    }
    true
}

/// The characters of a string slice, in order.
pub fn chars_of(s: &str) -> (v: Vec<char>)
    ensures
        v@ == s@,
{
    let mut v: Vec<char> = Vec::new();
    for c in it: s.chars()
        invariant
            v@ == it.seq().take(it.index() as int),
    {
        v.push(c);
    }
    v
}

/// Number of characters (Unicode scalar values) in a string slice.
pub fn char_count(s: &str) -> (n: usize)
    ensures
        n == s@.len(),
{
    let v = chars_of(s);
    v.len()
}

/// Calls `String::push`. Trusted: appends exactly the one character.
#[verifier::external_body]
pub(crate) fn push_char(s: &mut String, c: char)
    ensures
        final(s)@ == old(s)@.push(c),
{
    s.push(c);
}

/// Appends all of `tail` to `s`.
pub fn push_str(s: &mut String, tail: &str)
    ensures
        final(s)@ == old(s)@ + tail@,
{
    let v = chars_of(tail);
    push_chars(s, &v, 0, v.len());
}

/// Appends `v[from..to]` to `s`.
pub fn push_chars(s: &mut String, v: &Vec<char>, from: usize, to: usize)
    requires
        from <= to <= v@.len(),
    ensures
        final(s)@ == old(s)@ + v@.subrange(from as int, to as int),
{
    let ghost start = s@;
    let mut k = from;
    while k < to
        invariant
            from <= k <= to <= v@.len(),
            s@ == start + v@.subrange(from as int, k as int),
        decreases to - k,
    {
        push_char(s, v[k]);
        k += 1;
        assert(s@ =~= start + v@.subrange(from as int, k as int));
    }
}

/// A new string holding `v[from..to]`.
pub fn string_of(v: &Vec<char>, from: usize, to: usize) -> (s: String)
    requires
        from <= to <= v@.len(),
    ensures
        s@ == v@.subrange(from as int, to as int),
{
    let mut s = String::new();
    push_chars(&mut s, v, from, to);
    assert(s@ =~= v@.subrange(from as int, to as int));
    s
}

/// `s.trim().to_owned()`.
pub fn trimmed(s: &str) -> (t: String)
    ensures
        t@ == trim(s@),
{
    let v = chars_of(s);
    let a = ws_prefix_end(&v);
    let b = ws_suffix_start(&v, a);
    let t = string_of(&v, a, b);
    assert(t@ =~= trim(s@));
    t
}

/// Character-wise equality of two string slices.
pub fn str_eq(a: &str, b: &str) -> (same: bool)
    ensures
        same == (a@ == b@),
{
    let x = chars_of(a);
    let y = chars_of(b);
    if x.len() != y.len() {
        return false;
    }
    let mut k: usize = 0;
    while k < x.len()
        invariant
            x@ == a@,
            y@ == b@,
            x@.len() == y@.len(),
            k <= x@.len(),
            forall|i: int| 0 <= i < k ==> x@[i] == y@[i],
        decreases x@.len() - k,
    {
        if x[k] != y[k] {
            return false;
        }
        k += 1;
    }
    assert(x@ =~= y@);
    true
}

/// Bytes needed to encode a character in UTF-8.
pub open spec fn utf8_char_len(c: char) -> nat {
    let u = c as u32;
    if u < 0x80 {
        1
    } else if u < 0x800 {
        2
    } else if u < 0x10000 {
        3
    } else {
        4
    }
}

/// Length in bytes of the UTF-8 encoding (what `str::len` returns).
pub open spec fn utf8_len(s: Seq<char>) -> nat
    decreases s.len(),
{
    if s.len() == 0 {
        0
    } else {
        utf8_len(s.drop_last()) + utf8_char_len(s.last())
    }
}

/// Whether the UTF-8 encoding of `s` is longer than `limit` bytes.
pub fn utf8_len_exceeds(s: &str, limit: usize) -> (exceeds: bool)
    ensures
        exceeds == (utf8_len(s@) > limit),
{
    let v = chars_of(s);
    let mut total: usize = 0;
    let mut i: usize = 0;
    while i < v.len()
        invariant
            v@ == s@,
            i <= v@.len(),
            total == utf8_len(v@.subrange(0, i as int)),
            total <= limit,
        decreases v@.len() - i,
    {
        let u = v[i] as u32;
        let width: usize = if u < 0x80 {
            1
        } else if u < 0x800 {
            2
        } else if u < 0x10000 {
            3
        } else {
            4
        };
        assert(v@.subrange(0, i + 1).drop_last() =~= v@.subrange(0, i as int));
        if width > limit - total {
            proof {
                lemma_utf8_len_prefix_mono(v@, i as int + 1);
            }
            return true;
        }
        total += width;
        i += 1;
    }
    assert(v@.subrange(0, i as int) =~= s@);
    false
}

/// The encoded length of a prefix never exceeds that of the whole text.
pub proof fn lemma_utf8_len_prefix_mono(s: Seq<char>, n: int)
    requires
        0 <= n <= s.len(),
    ensures
        utf8_len(s.subrange(0, n)) <= utf8_len(s),
    decreases s.len() - n,
{
    if n < s.len() {
        lemma_utf8_len_prefix_mono(s, n + 1);
        assert(s.subrange(0, n + 1).drop_last() =~= s.subrange(0, n));
    } else {
        assert(s.subrange(0, n) =~= s);
    }
}

/// Calls `String::pop`. Trusted: removes and returns the last character,
/// or returns `None` and leaves an empty string unchanged.
#[verifier::external_body]
pub(crate) fn pop_char(s: &mut String) -> (last: Option<char>)
    ensures
        old(s)@.len() == 0 ==> last is None && final(s)@ == old(s)@,
        old(s)@.len() > 0 ==> last == Some(old(s)@.last()) && final(s)@ == old(s)@.drop_last(),
{
    s.pop()
}

/// `part` occurs somewhere in `text`.
pub open spec fn occurs_in(part: Seq<char>, text: Seq<char>) -> bool {
    exists|i: int| 0 <= i && i + part.len() <= text.len() && #[trigger] text.subrange(i, i + part.len()) == part
}

/// A part put between two texts occurs in the whole.
pub proof fn lemma_occurs_between(before: Seq<char>, part: Seq<char>, after: Seq<char>)
    ensures
        occurs_in(part, before + part + after),
{
    let whole = before + part + after;
    let i = before.len() as int;
    assert(whole.subrange(i, i + part.len()) =~= part);
}

/// `b` starts with `a`.
pub open spec fn is_prefix_of(a: Seq<char>, b: Seq<char>) -> bool {
    a.len() <= b.len() && b.subrange(0, a.len() as int) == a
}

/// `format!("{:?}", text)`: the text in double quotes with Rust's
/// debug escapes.
pub uninterp spec fn debug_quoted_text(text: Seq<char>) -> Seq<char>;

/// Calls `format!("{:?}", text)` (`Debug` for `str`). Trusted: the result
/// is the named `debug_quoted_text` of the text.
#[verifier::external_body]
pub(crate) fn debug_quoted(text: &str) -> (quoted: String)
    ensures
        quoted@ == debug_quoted_text(text@),
{
    format!("{:?}", text)
}

/// Decimal digits of a number, most significant first.
pub open spec fn decimal_text(n: nat) -> Seq<char>
    decreases n,
{
    if n < 10 {
        seq![(48 + n) as char]
    } else {
        decimal_text(n / 10).push((48 + n % 10) as char)
    }
}

/// The decimal form of a number, as `Display` writes it.
pub fn format_decimal(n: u64) -> (text: String)
    ensures
        text@ == decimal_text(n as nat),
    decreases n,
{
    if n < 10 {
        let mut text = String::new();
        let digit = (48 + n) as u8 as char;
        push_char(&mut text, digit);
        assert(text@ =~= decimal_text(n as nat));
        text
    } else {
        let mut text = format_decimal(n / 10);
        let digit = (48 + n % 10) as u8 as char;
        push_char(&mut text, digit);
        text
    }
}

/// Bytes of the UTF-8 encoding, saturating at `usize::MAX`.
pub fn text_bytes(text: &str) -> (n: usize)
    ensures
        n == (if utf8_len(text@) > usize::MAX {
            usize::MAX as int
        } else {
            utf8_len(text@) as int
        }),
{
    let chars = chars_of(text);
    let mut total: usize = 0;
    let mut i: usize = 0;
    while i < chars.len()
        invariant
            chars@ == text@,
            i <= chars@.len(),
            total == (if utf8_len(chars@.subrange(0, i as int)) > usize::MAX {
                usize::MAX as int
            } else {
                utf8_len(chars@.subrange(0, i as int)) as int
            }),
        decreases chars@.len() - i,
    {
        let u = chars[i] as u32;
        let width: usize = if u < 0x80 {
            1
        } else if u < 0x800 {
            2
        } else if u < 0x10000 {
            3
        } else {
            4
        };
        assert(chars@.subrange(0, i + 1).drop_last() =~= chars@.subrange(0, i as int));
        total = total.saturating_add(width);
        i += 1;
    }
    assert(chars@.subrange(0, i as int) =~= text@);
    total
}


/// `b` ends with `a`.
pub open spec fn is_suffix_of(a: Seq<char>, b: Seq<char>) -> bool {
    a.len() <= b.len() && b.subrange(b.len() - a.len(), b.len() as int) == a
}

/// Every character is ASCII.
pub open spec fn all_ascii(s: Seq<char>) -> bool {
    forall|i: int| 0 <= i < s.len() ==> (#[trigger] s[i] as u32) < 128
}

fn chars_match(text: &Vec<char>, at: usize, pattern: &Vec<char>) -> (same: bool)
    requires
        at + pattern@.len() <= text@.len(),
    ensures
        same == (text@.subrange(at as int, at + pattern@.len()) == pattern@),
{
    let total = text.len();
    let mut i: usize = 0;
    while i < pattern.len()
        invariant
            i <= pattern@.len(),
            at + pattern@.len() <= text@.len(),
            total == text@.len(),
            forall|k: int| 0 <= k < i ==> text@[at + k] == pattern@[k],
        decreases pattern@.len() - i,
    {
        if text[at + i] != pattern[i] {
            assert(text@.subrange(at as int, at + pattern@.len())[i as int] != pattern@[i as int]);
            return false;
        }
        i += 1;
    }
    assert(text@.subrange(at as int, at + pattern@.len()) =~= pattern@);
    true
}

/// `s.starts_with(prefix)`.
pub fn starts_with(s: &str, prefix: &str) -> (found: bool)
    ensures
        found == is_prefix_of(prefix@, s@),
{
    let text = chars_of(s);
    let pattern = chars_of(prefix);
    if pattern.len() > text.len() {
        return false;
    }
    chars_match(&text, 0, &pattern)
}

/// `s.ends_with(suffix)`.
pub fn ends_with(s: &str, suffix: &str) -> (found: bool)
    ensures
        found == is_suffix_of(suffix@, s@),
{
    let text = chars_of(s);
    let pattern = chars_of(suffix);
    if pattern.len() > text.len() {
        return false;
    }
    chars_match(&text, text.len() - pattern.len(), &pattern)
}

/// `s.contains(c)`.
pub fn contains_char(s: &str, c: char) -> (found: bool)
    ensures
        found == s@.contains(c),
{
    let text = chars_of(s);
    let mut i: usize = 0;
    while i < text.len()
        invariant
            i <= text@.len(),
            text@ == s@,
            forall|k: int| 0 <= k < i ==> text@[k] != c,
        decreases text@.len() - i,
    {
        if text[i] == c {
            assert(s@[i as int] == c);
            return true;
        }
        i += 1;
    }
    false
}

/// `s.is_ascii()`.
pub fn is_ascii_text(s: &str) -> (ascii: bool)
    ensures
        ascii == all_ascii(s@),
{
    let text = chars_of(s);
    let mut i: usize = 0;
    while i < text.len()
        invariant
            i <= text@.len(),
            text@ == s@,
            forall|k: int| 0 <= k < i ==> (#[trigger] text@[k] as u32) < 128,
        decreases text@.len() - i,
    {
        if (text[i] as u32) >= 128 {
            assert(!((s@[i as int] as u32) < 128));
            return false;
        }
        i += 1;
    }
    true
}

/// `s.strip_prefix(prefix)`, as an owned string.
pub fn strip_prefix(s: &str, prefix: &str) -> (rest: Option<String>)
    ensures
        match rest {
            Some(r) => is_prefix_of(prefix@, s@) && r@ == s@.subrange(prefix@.len() as int, s@.len() as int),
            None => !is_prefix_of(prefix@, s@),
        },
{
    let text = chars_of(s);
    let pattern = chars_of(prefix);
    if pattern.len() > text.len() || !chars_match(&text, 0, &pattern) {
        return None;
    }
    Some(string_of(&text, pattern.len(), text.len()))
}

} // verus!
