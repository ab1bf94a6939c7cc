//! Characters, white space and decimal numerals.

use vstd::prelude::*;
use vstd::string::{StrSliceExecFns, StringSliceAdditionalSpecFns};
use vstd::utf8::{
    encode_scalar, encode_utf8, encode_utf8_decode_utf8, encode_utf8_first_scalar,
    encode_utf8_valid_utf8, is_char_boundary, pop_first_scalar,
};

verus! {

/// `String::push` of the standard library: the string grows by exactly the
/// pushed character, at its end.
pub assume_specification[ String::push ](s: &mut String, c: char)
    ensures
        final(s)@ == old(s)@.push(c),
;

/// The characters of `s`, in order.
pub(crate) fn chars_of(s: &str) -> (v: Vec<char>)
    ensures
        v@ == s@,
{
    let mut v: Vec<char> = Vec::new();
    for c in it: s.chars()
        invariant
            v@ == it.seq().take(it.index() as int),
            it.seq() == s@,
    {
        v.push(c);
    }
    v
}

proof fn lemma_encode_concat(a: Seq<char>, b: Seq<char>)
    ensures
        encode_utf8(a + b) == encode_utf8(a) + encode_utf8(b),
        is_char_boundary(encode_utf8(a + b), encode_utf8(a).len() as int),
    decreases a.len(),
{
    let whole = a + b;
    let bytes = encode_utf8(whole);
    encode_utf8_valid_utf8(whole);
    if a.len() == 0 {
        assert(whole =~= b);
        assert(encode_utf8(a) + encode_utf8(b) =~= encode_utf8(b));
    } else {
        lemma_encode_concat(a.drop_first(), b);
        assert(whole.drop_first() =~= a.drop_first() + b);
        assert(whole[0] == a[0]);
        let first = encode_scalar(a[0] as u32);
        assert(bytes =~= encode_utf8(a) + encode_utf8(b));
        encode_utf8_first_scalar(whole);
        assert(pop_first_scalar(bytes) =~= encode_utf8(whole.drop_first()));
        assert(encode_utf8(a).len() == first.len() + encode_utf8(a.drop_first()).len());
    }
}

proof fn lemma_encode_is_one_to_one(a: Seq<char>, b: Seq<char>)
    requires
        encode_utf8(a) == encode_utf8(b),
    ensures
        a == b,
{
    encode_utf8_decode_utf8(a);
    encode_utf8_decode_utf8(b);
}

/// Splits `s` after its first `count` characters. The time it takes grows
/// with `count`, not with the length of `s`.
pub(crate) fn split_chars(s: &str, count: usize) -> (r: (&str, &str))
    requires
        count <= s@.len(),
    ensures
        r.0@ == s@.take(count as int),
        r.1@ == s@.skip(count as int),
{
    let head = s.substring_char(0, count);
    let mid = head.as_bytes().len();
    proof {
        let a = s@.take(count as int);
        let b = s@.skip(count as int);
        assert(head@ =~= a);
        assert(s@ =~= a + b);
        lemma_encode_concat(a, b);
    }
    let (left, right) = s.split_at(mid);
    proof {
        let a = s@.take(count as int);
        let b = s@.skip(count as int);
        let bytes = encode_utf8(a) + encode_utf8(b);
        assert(bytes.subrange(0, mid as int) =~= encode_utf8(a));
        assert(bytes.subrange(mid as int, bytes.len() as int) =~= encode_utf8(b));
        lemma_encode_is_one_to_one(left@, a);
        lemma_encode_is_one_to_one(right@, b);
    }
    (left, right)
}

/// Unicode's `White_Space` property.
pub open spec fn is_whitespace(c: char) -> bool {
    let u = c as u32;
    ||| 0x09 <= u <= 0x0D
    ||| u == 0x20
    ||| u == 0x85
    ||| u == 0xA0
    ||| u == 0x1680
    ||| 0x2000 <= u <= 0x200A
    ||| u == 0x2028
    ||| u == 0x2029
    ||| u == 0x202F
    ||| u == 0x205F
    ||| u == 0x3000
}

/// Index of the first character of `s` that is not white space; `s.len()`
/// when there is none.
pub open spec fn trim_start(s: Seq<char>) -> int
    decreases s.len(),
{
    if s.len() == 0 || !is_whitespace(s[0]) {
        0
    } else {
        1 + trim_start(s.drop_first())
    }
}

/// One past the index of the last character of `s` that is not white space;
/// 0 when there is none.
pub open spec fn trim_end(s: Seq<char>) -> int
    decreases s.len(),
{
    if s.len() == 0 || !is_whitespace(s.last()) {
        s.len() as int
    } else {
        trim_end(s.drop_last())
    }
}

/// `s` without its leading and trailing white space.
pub open spec fn trimmed(s: Seq<char>) -> Seq<char> {
    if trim_start(s) >= trim_end(s) {
        Seq::empty()
    } else {
        s.subrange(trim_start(s), trim_end(s))
    }
}

/// What `trim_start` computes, said without recursion.
pub proof fn lemma_trim_start(s: Seq<char>)
    ensures
        0 <= trim_start(s) <= s.len(),
        forall|i: int| 0 <= i < trim_start(s) ==> is_whitespace(#[trigger] s[i]),
        trim_start(s) < s.len() ==> !is_whitespace(s[trim_start(s)]),
    decreases s.len(),
{
    if s.len() > 0 && is_whitespace(s[0]) {
        let rest = s.drop_first();
        lemma_trim_start(rest);
        assert forall|i: int| 0 <= i < trim_start(s) implies is_whitespace(#[trigger] s[i]) by {
            if i > 0 {
                assert(s[i] == rest[i - 1]);
            }
        }
        assert(trim_start(s) < s.len() ==> s[trim_start(s)] == rest[trim_start(rest)]);
    }
}

/// What `trim_end` computes, said without recursion.
pub proof fn lemma_trim_end(s: Seq<char>)
    ensures
        0 <= trim_end(s) <= s.len(),
        forall|i: int| trim_end(s) <= i < s.len() ==> is_whitespace(#[trigger] s[i]),
        trim_end(s) > 0 ==> !is_whitespace(s[trim_end(s) - 1]),
    decreases s.len(),
{
    if s.len() > 0 && is_whitespace(s.last()) {
        let rest = s.drop_last();
        lemma_trim_end(rest);
        assert forall|i: int| trim_end(s) <= i < s.len() implies is_whitespace(#[trigger] s[i]) by {
            if i < s.len() - 1 {
                assert(s[i] == rest[i]);
            }
        }
        assert(trim_end(s) > 0 ==> s[trim_end(s) - 1] == rest[trim_end(rest) - 1]);
    }
}

/// The white-space test of `is_whitespace`, on a character at hand.
pub(crate) fn is_white(c: char) -> (b: bool)
    ensures
        b == is_whitespace(c),
{
    let u: u32 = c as u32;
    (0x09 <= u && u <= 0x0D) || u == 0x20 || u == 0x85 || u == 0xA0 || u == 0x1680 || (0x2000 <= u
        && u <= 0x200A) || u == 0x2028 || u == 0x2029 || u == 0x202F || u == 0x205F || u == 0x3000
}

/// The part of `s` between its leading and its trailing white space.
pub fn trim(s: &str) -> (t: &str)
    ensures
        t@ == trimmed(s@),
{
    let chars = chars_of(s);
    let n = chars.len();
    let mut start: usize = 0;
    while start < n && is_white(chars[start])
        invariant
            start <= n,
            n == chars@.len(),
            forall|i: int| 0 <= i < start ==> is_whitespace(#[trigger] chars@[i]),
        decreases n - start,
    {
        start += 1;
    }
    let mut end: usize = n;
    while end > 0 && is_white(chars[end - 1])
        invariant
            end <= n,
            n == chars@.len(),
            forall|i: int| end <= i < n ==> is_whitespace(#[trigger] chars@[i]),
        decreases end,
    {
        end -= 1;
    }
    proof {
        lemma_trim_start(s@);
        lemma_trim_end(s@);
        let a = trim_start(s@);
        let b = trim_end(s@);
        if a < start {
            assert(is_whitespace(s@[a]));
        }
        if start < a {
            assert(is_whitespace(s@[start as int]));
        }
        if b > end {
            assert(is_whitespace(s@[b - 1]));
        }
        if end > b {
            assert(is_whitespace(s@[end - 1]));
        }
    }
    if start >= end {
        s.substring_char(0, 0)
    } else {
        s.substring_char(start, end)
    }
}

/// The numeral for a single digit `d`, from `'0'` for 0 to `'9'` for 9.
pub open spec fn digit(d: int) -> char {
    ('0' as int + d) as char
}

/// `n` in decimal: no sign, no leading zero but for 0 itself.
pub open spec fn decimal(n: nat) -> Seq<char>
    decreases n,
{
    if n < 10 {
        seq![digit(n as int)]
    } else {
        decimal(n / 10).push(digit((n % 10) as int))
    }
}

/// `v` in decimal, with a leading `-` when it is negative.
pub open spec fn signed_decimal(v: int) -> Seq<char> {
    if v < 0 {
        seq!['-'] + decimal((-v) as nat)
    } else {
        decimal(v as nat)
    }
}

fn digit_char(d: u8) -> (c: char)
    requires
        d < 10,
    ensures
        c == digit(d as int),
{
    ('0' as u8 + d) as char
}

/// Appends `n` in decimal to `out`.
pub(crate) fn push_decimal(out: &mut String, n: u64)
    ensures
        final(out)@ == old(out)@ + decimal(n as nat),
    decreases n,
{
    if n >= 10 {
        push_decimal(out, n / 10);
    }
    out.push(digit_char((n % 10) as u8));
}

/// `v` in decimal, with a leading `-` when it is negative.
pub(crate) fn signed_decimal_string(v: i64) -> (s: String)
    ensures
        s@ == signed_decimal(v as int),
{
    let mut s = String::new();
    if v < 0 {
        s.push('-');
        let wide: i128 = v as i128;
        push_decimal(&mut s, (-wide) as u64);
    } else {
        push_decimal(&mut s, v as u64);
    }
    s
}

} // verus!
