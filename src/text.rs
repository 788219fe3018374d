//! Bounding the text that a candidate is matched against.
use vstd::prelude::*;
use vstd::string::StrSliceExecFns;

verus! {

/// Largest number of UTF-8 bytes of a candidate's text that takes part in matching.
pub const MAX_MATCH_BYTES: usize = 1024;

/// Number of bytes that UTF-8 uses to encode `c`.
pub open spec fn char_utf8_len(c: char) -> int {
    if (c as u32) < 0x80 {
        1
    } else if (c as u32) < 0x800 {
        2
    } else if (c as u32) < 0x10000 {
        3
    } else {
        4
    }
}

/// Number of bytes that UTF-8 uses to encode the text `s`.
pub open spec fn utf8_len(s: Seq<char>) -> int
    decreases s.len(),
{
    if s.len() == 0 {
        0
    } else {
        utf8_len(s.drop_last()) + char_utf8_len(s.last())
    }
}

/// The largest `m <= i` whose prefix `s.take(m)` takes at most `limit` bytes.
pub open spec fn fitting_prefix_len(s: Seq<char>, limit: int, i: nat) -> nat
    decreases i,
{
    if i == 0 {
        0
    } else if utf8_len(s.take(i as int)) <= limit {
        i
    } else {
        fitting_prefix_len(s, limit, (i - 1) as nat)
    }
}

/// The longest prefix of `s`, in whole characters, that takes at most
/// `MAX_MATCH_BYTES` bytes.
pub open spec fn bounded_text(s: Seq<char>) -> Seq<char> {
    s.take(fitting_prefix_len(s, MAX_MATCH_BYTES as int, s.len()) as int)
}

proof fn lemma_utf8_len_step(s: Seq<char>, i: int)
    requires
        0 <= i < s.len(),
    ensures
        utf8_len(s.take(i + 1)) == utf8_len(s.take(i)) + char_utf8_len(s[i]),
{
    assert(s.take(i + 1).drop_last() =~= s.take(i));
}

proof fn lemma_utf8_len_grows(s: Seq<char>, i: int, k: int)
    requires
        0 <= i <= k <= s.len(),
    ensures
        utf8_len(s.take(i)) + (k - i) <= utf8_len(s.take(k)),
    decreases k - i,
{
    if i < k {
        lemma_utf8_len_grows(s, i, k - 1);
        lemma_utf8_len_step(s, k - 1);
    }
}

proof fn lemma_fitting_prefix_is(s: Seq<char>, limit: int, m: int, i: int)
    requires
        0 <= m <= i <= s.len(),
        utf8_len(s.take(m)) <= limit,
        m == s.len() || utf8_len(s.take(m + 1)) > limit,
    ensures
        fitting_prefix_len(s, limit, i as nat) == m,
    decreases i,
{
    if i > m {
        lemma_utf8_len_grows(s, m + 1, i);
        lemma_fitting_prefix_is(s, limit, m, i - 1);
    } else if m > 0 {
        assert(s.take(i) == s.take(m));
    }
}

/// The bounded text is a prefix of the text in whole characters, takes at most
/// `MAX_MATCH_BYTES` bytes, and no longer prefix does; a text that fits is kept whole.
pub proof fn lemma_bounded_text_is_longest_fitting_prefix(s: Seq<char>)
    ensures
        s.take(bounded_text(s).len() as int) == bounded_text(s),
        bounded_text(s).len() <= s.len(),
        utf8_len(bounded_text(s)) <= MAX_MATCH_BYTES,
        forall|k: int|
            bounded_text(s).len() < k <= s.len() ==> utf8_len(#[trigger] s.take(k))
                > MAX_MATCH_BYTES,
        utf8_len(s) <= MAX_MATCH_BYTES ==> bounded_text(s) == s,
{
    lemma_fitting_prefix_bounds(s, MAX_MATCH_BYTES as int, s.len());
    let m = fitting_prefix_len(s, MAX_MATCH_BYTES as int, s.len()) as int;
    assert forall|k: int| m < k <= s.len() implies utf8_len(#[trigger] s.take(k))
        > MAX_MATCH_BYTES by {
        lemma_fitting_prefix_above(s, MAX_MATCH_BYTES as int, s.len(), k);
    }
    if utf8_len(s) <= MAX_MATCH_BYTES {
        assert(s.take(s.len() as int) =~= s);
    }
}

proof fn lemma_fitting_prefix_bounds(s: Seq<char>, limit: int, i: nat)
    requires
        i <= s.len(),
        limit >= 0,
    ensures
        fitting_prefix_len(s, limit, i) <= i,
        utf8_len(s.take(fitting_prefix_len(s, limit, i) as int)) <= limit,
    decreases i,
{
    if i > 0 && utf8_len(s.take(i as int)) > limit {
        lemma_fitting_prefix_bounds(s, limit, (i - 1) as nat);
    } else if i == 0 {
        assert(s.take(0).len() == 0);
    }
}

proof fn lemma_fitting_prefix_above(s: Seq<char>, limit: int, i: nat, k: int)
    requires
        i <= s.len(),
        fitting_prefix_len(s, limit, i) < k <= i,
    ensures
        utf8_len(s.take(k)) > limit,
    decreases i,
{
    if k < i {
        lemma_fitting_prefix_above(s, limit, (i - 1) as nat, k);
    }
}

/// UTF-8 length of one character.
fn char_len(c: char) -> (r: usize)
    ensures
        r as int == char_utf8_len(c),
{
    if (c as u32) < 0x80 {
        1
    } else if (c as u32) < 0x800 {
        2
    } else if (c as u32) < 0x10000 {
        3
    } else {
        4
    }
}

/// The text that takes part in matching: `text` itself where it takes at most
/// `MAX_MATCH_BYTES` bytes, else its longest prefix of whole characters that fits.
pub fn bound_text(text: &String) -> (r: String)
    ensures
        r@ == bounded_text(text@),
{
    let s = text.as_str();
    let n = s.unicode_len();
    let mut i: usize = 0;
    let mut used: usize = 0;
    let mut full = false;
    while i < n && !full
        invariant
            n == text@.len(),
            s@ == text@,
            0 <= i <= n,
            used as int == utf8_len(text@.take(i as int)),
            used <= MAX_MATCH_BYTES,
            full ==> i < n && used + char_utf8_len(text@[i as int]) > MAX_MATCH_BYTES,
        decreases n - i, if full { 0int } else { 1int },
    {
        let c = s.get_char(i);
        let w = char_len(c);
        if used + w > MAX_MATCH_BYTES {
            full = true;
        } else {
            proof {
                lemma_utf8_len_step(text@, i as int);
            }
            used = used + w;
            i = i + 1;
        }
    }
    proof {
        if i < n {
            lemma_utf8_len_step(text@, i as int);
        }
        lemma_fitting_prefix_is(text@, MAX_MATCH_BYTES as int, i as int, n as int);
    }
    if i == n {
        proof {
            assert(text@.take(n as int) =~= text@);
        }
        text.clone()
    } else {
        String::from_str(s.substring_char(0, i))
    }
}

} // verus!
