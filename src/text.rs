//! Text helpers over character sequences: UTF-8 decoding, substring search,
//! hexadecimal rendering and truncation to a byte budget.

use vstd::prelude::*;
use vstd::string::*;
use vstd::utf8::*;

verus! {

/// `m` occurs in `t` at position `i`.
pub open spec fn occurs_at(t: Seq<char>, m: Seq<char>, i: int) -> bool {
    0 <= i && i + m.len() <= t.len() && t.subrange(i, i + m.len()) == m
}

/// The first position at or after `i` where `m` occurs in `t`.
pub open spec fn find_from(t: Seq<char>, m: Seq<char>, i: int) -> Option<int>
    decreases t.len() + 1 - i,
{
    if i < 0 || i + m.len() > t.len() {
        None
    } else if occurs_at(t, m, i) {
        Some(i)
    } else {
        find_from(t, m, i + 1)
    }
}

/// What lossy UTF-8 decoding makes of `b`.
pub uninterp spec fn utf8_lossy(b: Seq<u8>) -> Seq<char>;

/// Relies on `std::str::from_utf8`: it accepts exactly the valid UTF-8 byte
/// strings, and the text it returns holds those bytes.
#[verifier::external_body]
pub(crate) fn utf8_text(b: &Vec<u8>) -> (r: Option<String>)
    ensures
        r is Some <==> valid_utf8(b@),
        r matches Some(s) ==> s@ == decode_utf8(b@),
{
    match std::str::from_utf8(b.as_slice()) {
        Ok(s) => Some(s.to_string()),
        Err(_) => None,
    }
}

/// Relies on `String::from_utf8_lossy`: its text depends on the bytes alone.
#[verifier::external_body]
pub(crate) fn lossy_text(b: &Vec<u8>) -> (r: String)
    ensures
        r@ == utf8_lossy(b@),
{
    String::from_utf8_lossy(b.as_slice()).into_owned()
}

/// Relies on `String::push`: appends one character.
#[verifier::external_body]
pub(crate) fn push_char(s: &mut String, c: char)
    ensures
        final(s)@ == old(s)@.push(c),
{
    s.push(c)
}

/// Position of the first occurrence of `m` in `t` at or after `from`.
pub fn find_text(t: &str, m: &str, from: usize) -> (r: Option<usize>)
    ensures
        match r {
            Some(i) => find_from(t@, m@, from as int) == Some(i as int),
            None => find_from(t@, m@, from as int) is None,
        },
        r matches Some(i) ==> from <= i && i + m@.len() <= t@.len(),
{
    let n = t.unicode_len();
    let mlen = m.unicode_len();
    if from > n {
        return None;
    }
    if mlen == 0 {
        assert(t@.subrange(from as int, from as int) =~= m@);
        return Some(from);
    }
    let mut i = from;
    while mlen <= n - i
        invariant
            from <= i,
            i <= n,
            mlen >= 1,
            n == t@.len(),
            mlen == m@.len(),
            find_from(t@, m@, from as int) == find_from(t@, m@, i as int),
        decreases n - i,
    {
        let mut j: usize = 0;
        let mut same = true;
        while j < mlen && same
            invariant
                i + mlen <= n,
                n == t@.len(),
                mlen == m@.len(),
                j <= mlen,
                same ==> forall|k: int| 0 <= k < j ==> t@[i + k] == m@[k],
                !same ==> !occurs_at(t@, m@, i as int),
            decreases if same { mlen - j + 1 } else { 0 },
        {
            if t.get_char(i + j) != m.get_char(j) {
                same = false;
                assert(t@.subrange(i as int, i + mlen)[j as int] != m@[j as int]);
            } else {
                j = j + 1;
            }
        }
        if same {
            assert(t@.subrange(i as int, i + mlen) =~= m@);
            return Some(i);
        }
        i = i + 1;
    }
    None
}

/// Upper-case hexadecimal digit of `d`.
pub open spec fn hex_digit(d: u8) -> char
    recommends
        d < 16,
{
    if d < 10 {
        (48 + d) as char
    } else {
        (55 + d) as char
    }
}

/// `b` as two upper-case hexadecimal digits.
pub open spec fn hex_upper(b: u8) -> Seq<char> {
    seq![hex_digit(b / 16), hex_digit(b % 16)]
}

fn hex_digit_exec(d: u8) -> (c: char)
    requires
        d < 16,
    ensures
        c == hex_digit(d),
{
    if d < 10 {
        (48 + d) as char
    } else {
        (55 + d) as char
    }
}

/// Appends `b` to `s` as two upper-case hexadecimal digits.
pub fn push_hex(s: &mut String, b: u8)
    ensures
        final(s)@ == old(s)@ + hex_upper(b),
{
    push_char(s, hex_digit_exec(b / 16));
    push_char(s, hex_digit_exec(b % 16));
    assert(final(s)@ =~= old(s)@ + hex_upper(b));
}

/// Number of bytes that UTF-8 takes for `c`.
pub open spec fn char_width(c: char) -> nat {
    encode_scalar(c as u32).len()
}

/// UTF-8 takes the bytes of both parts for a concatenation.
pub proof fn lemma_encode_len_concat(a: Seq<char>, b: Seq<char>)
    ensures
        encode_utf8(a + b).len() == encode_utf8(a).len() + encode_utf8(b).len(),
    decreases a.len(),
{
    if a.len() == 0 {
        assert(a + b =~= b);
    } else {
        lemma_encode_len_concat(a.drop_first(), b);
        assert((a + b).drop_first() =~= a.drop_first() + b);
    }
}

/// UTF-8 takes one byte per character of ASCII text.
pub proof fn lemma_encode_len_ascii(s: Seq<char>)
    requires
        forall|i: int| 0 <= i < s.len() ==> ((#[trigger] s[i]) as u32) < 0x80,
    ensures
        encode_utf8(s).len() == s.len(),
    decreases s.len(),
{
    if s.len() > 0 {
        assert((s[0] as u32) < 0x80);
        lemma_encode_len_ascii(s.drop_first());
    }
}

/// Number of leading characters of `s` whose UTF-8 encoding fits in `budget` bytes.
pub open spec fn fit_len(s: Seq<char>, budget: int) -> nat
    decreases s.len(),
{
    if s.len() == 0 {
        0
    } else if char_width(s[0]) <= budget {
        1 + fit_len(s.drop_first(), budget - char_width(s[0]))
    } else {
        0
    }
}

/// The longest prefix of `s` whose UTF-8 encoding takes at most `budget` bytes.
pub open spec fn truncate_utf8(s: Seq<char>, budget: int) -> Seq<char> {
    s.take(fit_len(s, budget) as int)
}

fn char_width_exec(c: char) -> (w: usize)
    ensures
        w == char_width(c),
        1 <= w <= 4,
{
    proof {
        char_is_scalar(c);
    }
    let u = c as u32;
    if u <= 0x7F {
        1
    } else if u <= 0x7FF {
        2
    } else if u <= 0xFFFF {
        3
    } else {
        4
    }
}

proof fn lemma_fit_len_bound(s: Seq<char>, budget: int)
    ensures
        fit_len(s, budget) <= s.len(),
    decreases s.len(),
{
    if s.len() > 0 && char_width(s[0]) <= budget {
        lemma_fit_len_bound(s.drop_first(), budget - char_width(s[0]));
    }
}

/// The truncated prefix fits the budget.
pub proof fn lemma_truncate_fits(s: Seq<char>, budget: int)
    requires
        budget >= 0,
    ensures
        encode_utf8(truncate_utf8(s, budget)).len() <= budget,
    decreases s.len(),
{
    let k = fit_len(s, budget) as int;
    lemma_fit_len_bound(s, budget);
    if k == 0 {
        assert(s.take(0) =~= Seq::<char>::empty());
    } else {
        let w = char_width(s[0]);
        lemma_truncate_fits(s.drop_first(), budget - w);
        assert(s.take(k).drop_first() =~= s.drop_first().take(k - 1));
    }
}

/// Text that already fits the budget is kept whole.
pub proof fn lemma_truncate_noop(s: Seq<char>, budget: int)
    requires
        encode_utf8(s).len() <= budget,
    ensures
        truncate_utf8(s, budget) == s,
    decreases s.len(),
{
    if s.len() == 0 {
        assert(s.take(0) =~= s);
    } else {
        let w = char_width(s[0]);
        lemma_truncate_noop(s.drop_first(), budget - w);
        lemma_fit_len_bound(s.drop_first(), budget - w);
        assert(fit_len(s.drop_first(), budget - w) == s.len() - 1);
        assert(s.take(s.len() as int) =~= s);
    }
}

/// The longest prefix of `s` whose UTF-8 encoding takes at most `budget` bytes.
pub fn truncate_text(s: &str, budget: usize) -> (r: String)
    ensures
        r@ == truncate_utf8(s@, budget as int),
        encode_utf8(r@).len() <= budget,
{
    let n = s.unicode_len();
    let mut i: usize = 0;
    let mut used: usize = 0;
    proof {
        assert(s@.skip(0) =~= s@);
    }
    while i < n && char_width_exec(s.get_char(i)) <= budget - used
        invariant
            n == s@.len(),
            i <= n,
            used <= budget,
            fit_len(s@, budget as int) == i + fit_len(s@.skip(i as int), budget - used),
        decreases n - i,
    {
        let w = char_width_exec(s.get_char(i));
        proof {
            let rest = s@.skip(i as int);
            assert(rest[0] == s@[i as int]);
            assert(rest.drop_first() =~= s@.skip(i + 1));
        }
        used = used + w;
        i = i + 1;
    }
    proof {
        let rest = s@.skip(i as int);
        if i < n {
            assert(rest[0] == s@[i as int]);
        }
        lemma_truncate_fits(s@, budget as int);
    }
    s.substring_char(0, i).to_owned()
}

} // verus!
