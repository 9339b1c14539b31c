use vstd::prelude::*;
use vstd::string::StrSliceExecFns;
use vstd::string::StringExecFns;

verus! {

/// Whether `s` begins with `pre`.
pub open spec fn seq_starts_with(s: Seq<char>, pre: Seq<char>) -> bool {
    pre.len() <= s.len() && s.subrange(0, pre.len() as int) == pre
}

/// Whether `s` ends with `suf`.
pub open spec fn seq_ends_with(s: Seq<char>, suf: Seq<char>) -> bool {
    suf.len() <= s.len() && s.subrange(s.len() - suf.len(), s.len() as int) == suf
}

/// Whether `sub` occurs in `s` starting at position `i`.
pub open spec fn seq_matches_at(s: Seq<char>, sub: Seq<char>, i: int) -> bool {
    0 <= i && i + sub.len() <= s.len() && s.subrange(i, i + sub.len()) == sub
}

/// Whether `sub` occurs somewhere in `s`.
pub open spec fn seq_contains_sub(s: Seq<char>, sub: Seq<char>) -> bool {
    exists|i: int| seq_matches_at(s, sub, i)
}

pub open spec fn is_ascii_digit(c: char) -> bool {
    48 <= c as u32 && c as u32 <= 57
}

pub open spec fn all_digits(s: Seq<char>) -> bool {
    forall|i: int| 0 <= i < s.len() ==> is_ascii_digit(#[trigger] s[i])
}

/// The number written by a digit string, read left to right.
pub open spec fn digits_value(s: Seq<char>) -> int
    decreases s.len(),
{
    if s.len() == 0 {
        0
    } else {
        digits_value(s.drop_last()) * 10 + (s.last() as u32 - 48)
    }
}

/// What `usize::from_str` returns: an optional leading `+`, then at least
/// one digit, and a value that fits the machine word.
pub open spec fn spec_parse_usize(s: Seq<char>) -> Option<usize> {
    let digits = if s.len() >= 1 && s[0] == '+' {
        s.skip(1)
    } else {
        s
    };
    if digits.len() >= 1 && all_digits(digits) && digits_value(digits) <= usize::MAX {
        Some(digits_value(digits) as usize)
    } else {
        None
    }
}

proof fn lemma_digits_value_bounds(s: Seq<char>)
    requires
        all_digits(s),
    ensures
        digits_value(s) >= 0,
    decreases s.len(),
{
    if s.len() > 0 {
        assert(all_digits(s.drop_last())) by {
            assert(forall|i: int| 0 <= i < s.len() - 1 ==> is_ascii_digit(#[trigger] s[i]));
        }
        lemma_digits_value_bounds(s.drop_last());
        assert(is_ascii_digit(s[s.len() - 1]));
        assert(s.last() == s[s.len() - 1]);
    }
}

proof fn lemma_digits_value_step(s: Seq<char>, i: int)
    requires
        0 <= i < s.len(),
    ensures
        digits_value(s.take(i + 1)) == digits_value(s.take(i)) * 10 + (s[i] as u32 - 48),
{
    assert(s.take(i + 1).drop_last() =~= s.take(i));
    assert(s.take(i + 1).last() == s[i]);
}

proof fn lemma_digits_value_grows(s: Seq<char>, i: int)
    requires
        all_digits(s),
        0 <= i <= s.len(),
    ensures
        digits_value(s) >= digits_value(s.take(i)),
    decreases s.len() - i,
{
    if i < s.len() {
        lemma_digits_value_step(s, i);
        assert(all_digits(s.take(i))) by {
            assert(forall|j: int| 0 <= j < i ==> is_ascii_digit(#[trigger] s[j]));
        }
        lemma_digits_value_bounds(s.take(i));
        assert(is_ascii_digit(s[i]));
        lemma_digits_value_grows(s, i + 1);
    } else {
        assert(s.take(i) =~= s);
    }
}

/// Character-for-character string equality.
pub fn str_equal(a: &str, b: &str) -> (r: bool)
    ensures
        r == (a@ == b@),
{
    let alen = a.unicode_len();
    let blen = b.unicode_len();
    if alen != blen {
        proof {
            if a@ == b@ {
                assert(a@.len() == b@.len());
            }
        }
        return false;
    }
    let mut i: usize = 0;
    while i < alen
        invariant
            i <= alen,
            alen == a@.len(),
            alen == b@.len(),
            forall|j: int| 0 <= j < i ==> a@[j] == b@[j],
        decreases alen - i,
    {
        if a.get_char(i) != b.get_char(i) {
            proof {
                if a@ == b@ {
                    assert(a@[i as int] == b@[i as int]);
                }
            }
            return false;
        }
        i += 1;
    }
    proof {
        assert(a@ =~= b@);
    }
    true
}

/// Whether `s` begins with `pre`.
pub fn str_starts_with(s: &str, pre: &str) -> (r: bool)
    ensures
        r == seq_starts_with(s@, pre@),
{
    let slen = s.unicode_len();
    let plen = pre.unicode_len();
    if plen > slen {
        return false;
    }
    let mut i: usize = 0;
    while i < plen
        invariant
            i <= plen,
            plen <= slen,
            slen == s@.len(),
            plen == pre@.len(),
            forall|j: int| 0 <= j < i ==> s@[j] == pre@[j],
        decreases plen - i,
    {
        if s.get_char(i) != pre.get_char(i) {
            proof {
                if seq_starts_with(s@, pre@) {
                    assert(s@.subrange(0, pre@.len() as int)[i as int] == pre@[i as int]);
                }
            }
            return false;
        }
        i += 1;
    }
    proof {
        assert(s@.subrange(0, pre@.len() as int) =~= pre@);
    }
    true
}

/// Whether `s` ends with `suf`.
pub fn str_ends_with(s: &str, suf: &str) -> (r: bool)
    ensures
        r == seq_ends_with(s@, suf@),
{
    let slen = s.unicode_len();
    let flen = suf.unicode_len();
    if flen > slen {
        return false;
    }
    let off = slen - flen;
    let mut i: usize = 0;
    while i < flen
        invariant
            i <= flen,
            flen <= slen,
            off == slen - flen,
            slen == s@.len(),
            flen == suf@.len(),
            forall|j: int| 0 <= j < i ==> s@[off + j] == suf@[j],
        decreases flen - i,
    {
        if s.get_char(off + i) != suf.get_char(i) {
            proof {
                if seq_ends_with(s@, suf@) {
                    assert(s@.subrange(s@.len() - suf@.len(), s@.len() as int)[i as int]
                        == suf@[i as int]);
                }
            }
            return false;
        }
        i += 1;
    }
    proof {
        assert(s@.subrange(s@.len() - suf@.len(), s@.len() as int) =~= suf@);
    }
    true
}

/// Whether `sub` occurs in `s` starting at position `i`.
pub fn str_matches_at(s: &str, sub: &str, i: usize) -> (r: bool)
    requires
        i <= s@.len(),
    ensures
        r == seq_matches_at(s@, sub@, i as int),
{
    let slen = s.unicode_len();
    let blen = sub.unicode_len();
    if blen > slen - i {
        return false;
    }
    let mut j: usize = 0;
    while j < blen
        invariant
            j <= blen,
            i + blen <= slen,
            slen == s@.len(),
            blen == sub@.len(),
            forall|k: int| 0 <= k < j ==> s@[i + k] == sub@[k],
        decreases blen - j,
    {
        if s.get_char(i + j) != sub.get_char(j) {
            proof {
                if seq_matches_at(s@, sub@, i as int) {
                    assert(s@.subrange(i as int, i + sub@.len())[j as int] == sub@[j as int]);
                }
            }
            return false;
        }
        j += 1;
    }
    proof {
        assert(s@.subrange(i as int, i + sub@.len()) =~= sub@);
    }
    true
}

/// Whether `sub` occurs somewhere in `s`.
pub fn str_contains(s: &str, sub: &str) -> (r: bool)
    ensures
        r == seq_contains_sub(s@, sub@),
{
    let slen = s.unicode_len();
    let blen = sub.unicode_len();
    if blen > slen {
        proof {
            assert(forall|i: int| !seq_matches_at(s@, sub@, i));
        }
        return false;
    }
    if blen == 0 {
        proof {
            assert(s@.subrange(0, 0) =~= sub@);
            assert(seq_matches_at(s@, sub@, 0));
        }
        return true;
    }
    let mut i: usize = 0;
    while i <= slen - blen
        invariant
            0 < blen <= slen,
            slen == s@.len(),
            blen == sub@.len(),
            i <= slen - blen + 1,
            forall|j: int| 0 <= j < i ==> !seq_matches_at(s@, sub@, j),
        decreases slen - blen + 1 - i,
    {
        if str_matches_at(s, sub, i) {
            return true;
        }
        i += 1;
    }
    proof {
        assert(forall|j: int| seq_matches_at(s@, sub@, j) ==> 0 <= j <= s@.len() - sub@.len());
    }
    false
}

/// The characters of `s` from `from` (inclusive) to `to` (exclusive), as an
/// owned string.
pub fn substring(s: &str, from: usize, to: usize) -> (r: String)
    requires
        from <= to <= s@.len(),
    ensures
        r@ == s@.subrange(from as int, to as int),
{
    let sub = s.substring_char(from, to);
    String::from_str(sub)
}

/// Reads a base-ten machine integer as `usize::from_str` does: an optional
/// leading `+`, then at least one digit, rejecting values that overflow.
pub fn parse_usize(s: &str) -> (r: Option<usize>)
    ensures
        r == spec_parse_usize(s@),
{
    let slen = s.unicode_len();
    let start: usize = if slen >= 1 && s.get_char(0) == '+' {
        1
    } else {
        0
    };
    let ghost digits = if s@.len() >= 1 && s@[0] == '+' {
        s@.skip(1)
    } else {
        s@
    };
    proof {
        assert(digits =~= s@.subrange(start as int, slen as int));
    }
    if slen == start {
        return None;
    }
    let mut acc: usize = 0;
    let mut i: usize = start;
    while i < slen
        invariant
            start <= i <= slen,
            slen == s@.len(),
            start < slen,
            digits == (if s@.len() >= 1 && s@[0] == '+' {
                s@.skip(1)
            } else {
                s@
            }),
            digits =~= s@.subrange(start as int, slen as int),
            forall|j: int| 0 <= j < i - start ==> is_ascii_digit(#[trigger] digits[j]),
            acc == digits_value(digits.take(i - start)),
        decreases slen - i,
    {
        let c = s.get_char(i);
        let cu = c as u32;
        if !(48 <= cu && cu <= 57) {
            proof {
                assert(digits[i - start] == s@[i as int]);
                assert(!is_ascii_digit(digits[i - start]));
                assert(!all_digits(digits));
            }
            return None;
        }
        let d: usize = (cu - 48) as usize;
        proof {
            assert(digits[i - start] == s@[i as int]);
            assert(is_ascii_digit(digits[i - start]));
            lemma_digits_value_step(digits, i - start);
        }
        if acc > (usize::MAX - d) / 10 {
            proof {
                assert(acc * 10 + d > usize::MAX) by (nonlinear_arith)
                    requires
                        acc > (usize::MAX - d) / 10,
                        d <= 9,
                        (usize::MAX - d) / 10 == ((usize::MAX - d) as int) / 10,
                ;
                assert(forall|j: int| 0 <= j < i + 1 - start ==> is_ascii_digit(
                    #[trigger] digits[j],
                ));
                if all_digits(digits) {
                    lemma_digits_value_grows(digits, i + 1 - start);
                    assert(digits_value(digits.take(i + 1 - start)) == acc * 10 + d);
                    assert(digits_value(digits) > usize::MAX);
                }
            }
            return None;
        }
        acc = acc * 10 + d;
        i += 1;
    }
    proof {
        assert(digits.take(slen - start) =~= digits);
        assert(all_digits(digits));
    }
    Some(acc)
}

} // verus!
