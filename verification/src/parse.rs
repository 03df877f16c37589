//! Turning one raw line of input into an unsigned guess: surrounding ASCII
//! whitespace is dropped, an optional leading `+` sign is accepted, and the
//! remaining decimal digits must denote a value that fits in a `u32`.

use vstd::prelude::*;

verus! {

/// ASCII whitespace, as trimmed from the ends of a guess line.
pub open spec fn is_space(b: u8) -> bool {
    b == 32 || (9 <= b && b <= 13)
}

/// An ASCII decimal digit.
pub open spec fn is_digit(b: u8) -> bool {
    48 <= b && b <= 57
}

/// The numeric value of one digit byte.
pub open spec fn digit_val(b: u8) -> int {
    b - 48
}

/// Every byte of `s` is a decimal digit.
pub open spec fn all_digits(s: Seq<u8>) -> bool {
    forall|i: int| 0 <= i < s.len() ==> is_digit(s[i])
}

/// The value a run of decimal digits denotes, most significant digit first.
pub open spec fn digits_value(s: Seq<u8>) -> int
    decreases s.len(),
{
    if s.len() == 0 {
        0
    } else {
        digits_value(s.drop_last()) * 10 + digit_val(s.last())
    }
}

/// `s` with its leading whitespace removed.
pub open spec fn trim_front(s: Seq<u8>) -> Seq<u8>
    decreases s.len(),
{
    if s.len() > 0 && is_space(s[0]) {
        trim_front(s.drop_first())
    } else {
        s
    }
}

/// `s` with its trailing whitespace removed.
pub open spec fn trim_back(s: Seq<u8>) -> Seq<u8>
    decreases s.len(),
{
    if s.len() > 0 && is_space(s.last()) {
        trim_back(s.drop_last())
    } else {
        s
    }
}

/// `s` with whitespace removed from both ends.
pub open spec fn trimmed(s: Seq<u8>) -> Seq<u8> {
    trim_back(trim_front(s))
}

/// The digit run of a guess line: the trimmed line, less an optional leading
/// `+` sign (byte 43).
pub open spec fn digits_part(s: Seq<u8>) -> Seq<u8> {
    let t = trimmed(s);
    if t.len() > 0 && t[0] == 43 {
        t.drop_first()
    } else {
        t
    }
}

/// A line is a well-formed guess when its digit run is nonempty, consists of
/// digits alone, and denotes a value that fits in a `u32`.
pub open spec fn is_valid_guess(s: Seq<u8>) -> bool {
    let d = digits_part(s);
    d.len() > 0 && all_digits(d) && digits_value(d) <= u32::MAX
}

/// The value a well-formed guess line denotes.
pub open spec fn guess_value(s: Seq<u8>) -> int {
    digits_value(digits_part(s))
}

fn is_space_byte(b: u8) -> (r: bool)
    ensures
        r == is_space(b),
{
    b == 32 || (9 <= b && b <= 13)
}

proof fn lemma_trim_front_skip(s: Seq<u8>, i: int)
    requires
        0 <= i <= s.len(),
        forall|k: int| 0 <= k < i ==> is_space(s[k]),
        i < s.len() ==> !is_space(s[i]),
    ensures
        trim_front(s) == s.skip(i),
    decreases i,
{
    if i == 0 {
        assert(s.skip(0) =~= s);
    } else {
        assert(is_space(s[0]));
        let t = s.drop_first();
        assert forall|k: int| 0 <= k < i - 1 implies is_space(t[k]) by {
            assert(t[k] == s[k + 1]);
        }
        if i - 1 < t.len() {
            assert(t[i - 1] == s[i]);
        }
        lemma_trim_front_skip(t, i - 1);
        assert(t.skip(i - 1) =~= s.skip(i));
    }
}

proof fn lemma_trim_back_take(s: Seq<u8>, j: int)
    requires
        0 <= j <= s.len(),
        forall|k: int| j <= k < s.len() ==> is_space(s[k]),
        j > 0 ==> !is_space(s[j - 1]),
    ensures
        trim_back(s) == s.take(j),
    decreases s.len() - j,
{
    if j == s.len() {
        assert(s.take(j) =~= s);
    } else {
        assert(is_space(s[s.len() - 1]));
        let t = s.drop_last();
        assert forall|k: int| j <= k < t.len() implies is_space(t[k]) by {
            assert(t[k] == s[k]);
        }
        if j > 0 {
            assert(t[j - 1] == s[j - 1]);
        }
        lemma_trim_back_take(t, j);
        assert(t.take(j) =~= s.take(j));
    }
}

proof fn lemma_digits_value_nonneg(s: Seq<u8>)
    requires
        all_digits(s),
    ensures
        digits_value(s) >= 0,
    decreases s.len(),
{
    if s.len() > 0 {
        let t = s.drop_last();
        assert forall|k: int| 0 <= k < t.len() implies is_digit(t[k]) by {
            assert(t[k] == s[k]);
        }
        lemma_digits_value_nonneg(t);
        assert(is_digit(s[s.len() - 1]));
    }
}

proof fn lemma_digits_value_prefix_le(s: Seq<u8>, i: int)
    requires
        all_digits(s),
        0 <= i <= s.len(),
    ensures
        digits_value(s.subrange(0, i)) <= digits_value(s),
    decreases s.len() - i,
{
    if i == s.len() {
        assert(s.subrange(0, i) =~= s);
    } else {
        let a = s.subrange(0, i);
        let b = s.subrange(0, i + 1);
        assert(b.drop_last() =~= a);
        assert(b.last() == s[i]);
        assert forall|k: int| 0 <= k < a.len() implies is_digit(a[k]) by {
            assert(a[k] == s[k]);
        }
        lemma_digits_value_nonneg(a);
        assert(is_digit(s[i]));
        assert(digits_value(a) <= digits_value(b));
        lemma_digits_value_prefix_le(s, i + 1);
    }
}

/// A well-formed guess line denotes a value that a `u32` can hold.
pub proof fn lemma_guess_value_bounds(s: Seq<u8>)
    requires
        is_valid_guess(s),
    ensures
        0 <= guess_value(s) <= u32::MAX,
{
    lemma_digits_value_nonneg(digits_part(s));
}

/// Parse one raw line into a guess: `Some` of its value exactly on the
/// well-formed guess lines, `None` on every other line.
pub fn parse_guess(s: &[u8]) -> (r: Option<u32>)
    ensures
        is_valid_guess(s@) ==> r == Some(guess_value(s@) as u32),
        !is_valid_guess(s@) ==> r is None,
{
    let n = s.len();
    let mut lo: usize = 0;
    while lo < n && is_space_byte(s[lo])
        invariant
            0 <= lo <= n,
            n == s@.len(),
            forall|k: int| 0 <= k < lo ==> is_space(s@[k]),
        decreases n - lo,
    {
        lo += 1;
    }
    let mut hi: usize = n;
    while hi > lo && is_space_byte(s[hi - 1])
        invariant
            lo <= hi <= n,
            n == s@.len(),
            forall|k: int| hi <= k < n ==> is_space(s@[k]),
        decreases hi,
    {
        hi -= 1;
    }
    proof {
        lemma_trim_front_skip(s@, lo as int);
        let t1 = s@.skip(lo as int);
        assert forall|k: int| hi - lo <= k < t1.len() implies is_space(t1[k]) by {
            assert(t1[k] == s@[k + lo]);
        }
        if hi > lo {
            assert(t1[hi - lo - 1] == s@[hi - 1]);
        }
        lemma_trim_back_take(t1, hi - lo);
        assert(t1.take(hi - lo) =~= s@.subrange(lo as int, hi as int));
        assert(trimmed(s@) == s@.subrange(lo as int, hi as int));
    }
    let mut i: usize = lo;
    if i < hi && s[i] == 43 {
        i += 1;
    }
    let ghost st = i as int;
    proof {
        let t = trimmed(s@);
        if t.len() > 0 && t[0] == 43 {
            assert(t[0] == s@[lo as int]);
            assert(t.drop_first() =~= s@.subrange(lo as int + 1, hi as int));
        }
        assert(digits_part(s@) == s@.subrange(st, hi as int));
    }
    if i == hi {
        // An empty digit run: blank input, or a bare sign.
        return None;
    }
    let mut acc: u32 = 0;
    while i < hi
        invariant
            0 <= st <= i <= hi <= n,
            n == s@.len(),
            st < hi,
            digits_part(s@) == s@.subrange(st, hi as int),
            forall|k: int| st <= k < i ==> is_digit(s@[k]),
            acc == digits_value(s@.subrange(st, i as int)),
        decreases hi - i,
    {
        let b = s[i];
        if !(48 <= b && b <= 57) {
            proof {
                assert(digits_part(s@)[i - st] == s@[i as int]);
                assert(!all_digits(digits_part(s@)));
            }
            return None;
        }
        let d: u32 = (b - 48) as u32;
        proof {
            let pre = s@.subrange(st, i as int);
            let post = s@.subrange(st, i as int + 1);
            assert(post.drop_last() =~= pre);
            assert(post.last() == s@[i as int]);
            assert(digits_value(post) == acc * 10 + d);
        }
        if acc > 429496729 || (acc == 429496729 && d > 5) {
            // Appending this digit would push the value past u32::MAX.
            proof {
                let dp = digits_part(s@);
                let post = s@.subrange(st, i as int + 1);
                if all_digits(dp) {
                    assert(post =~= dp.subrange(0, i as int + 1 - st));
                    lemma_digits_value_prefix_le(dp, i as int + 1 - st);
                    assert(digits_value(dp) > u32::MAX);
                }
                assert(!is_valid_guess(s@));
            }
            return None;
        }
        acc = acc * 10 + d;
        i += 1;
    }
    proof {
        let dp = digits_part(s@);
        assert(dp =~= s@.subrange(st, hi as int));
        assert forall|k: int| 0 <= k < dp.len() implies is_digit(dp[k]) by {
            assert(dp[k] == s@[st + k]);
        }
        assert(is_valid_guess(s@));
        assert(guess_value(s@) == acc);
    }
    Some(acc)
}

} // verus!
