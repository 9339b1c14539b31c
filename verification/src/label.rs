use vstd::prelude::*;
use vstd::string::StrSliceExecFns;

use crate::error::EngineError;
use crate::text::is_ascii_digit;
use crate::text::seq_matches_at;
use crate::text::str_matches_at;
use crate::text::substring;

verus! {

// A full-context label is a single line that annotates one phoneme.  Ten
// context fields are cut out of it, each by its own delimiter rule: a fixed
// prefix, then either a nonempty digit run or the literal `xx`, then a fixed
// suffix.  The phoneme identity is the one free-text field: the characters
// between the first `-` and the `+` that first follows it on the same line.
// A rule takes the leftmost position where it matches in full.

/// The end of the digit run that starts at `i`: the first position at or
/// after `i` holding no decimal digit.
pub open spec fn digit_run_end(s: Seq<char>, i: int) -> int
    decreases s.len() - i when i <= s.len()
{
    if 0 <= i < s.len() && is_ascii_digit(s[i]) {
        digit_run_end(s, i + 1)
    } else {
        i
    }
}

/// What a delimiter rule yields at position `p` alone: `pre`, then a
/// nonempty digit run or the literal `xx`, then `suf`.  The digit branch is
/// preferred, as the longest run directly followed by `suf`.
pub open spec fn token_at(s: Seq<char>, pre: Seq<char>, suf: Seq<char>, p: int) -> Option<
    Seq<char>,
> {
    if seq_matches_at(s, pre, p) {
        let q = p + pre.len();
        let e = digit_run_end(s, q);
        if e > q && seq_matches_at(s, suf, e) {
            Some(s.subrange(q, e))
        } else if seq_matches_at(s, "xx"@, q) && seq_matches_at(s, suf, q + 2) {
            Some("xx"@)
        } else {
            None
        }
    } else {
        None
    }
}

/// What a delimiter rule yields on the whole line from position `p` on: the
/// leftmost position at or after `p` where it matches in full.
pub open spec fn find_token_from(s: Seq<char>, pre: Seq<char>, suf: Seq<char>, p: int) -> Option<
    Seq<char>,
>
    decreases s.len() - p when 0 <= p <= s.len()
{
    if 0 <= p < s.len() {
        if token_at(s, pre, suf, p) is Some {
            token_at(s, pre, suf, p)
        } else {
            find_token_from(s, pre, suf, p + 1)
        }
    } else {
        None
    }
}

/// What a delimiter rule yields on the whole line.
pub open spec fn find_token(s: Seq<char>, pre: Seq<char>, suf: Seq<char>) -> Option<Seq<char>> {
    find_token_from(s, pre, suf, 0)
}

/// The first position at or after `i` that holds `+`, a line break, or the
/// end of the line.
pub open spec fn plus_run_end(s: Seq<char>, i: int) -> int
    decreases s.len() - i when i <= s.len()
{
    if 0 <= i < s.len() && s[i] != '+' && s[i] != '\n' {
        plus_run_end(s, i + 1)
    } else {
        i
    }
}

/// What the phoneme-identity rule yields at position `p` alone: `-`, then
/// the shortest run of non-break characters, then `+`.
pub open spec fn identity_at(s: Seq<char>, p: int) -> Option<Seq<char>> {
    if 0 <= p < s.len() && s[p] == '-' {
        let e = plus_run_end(s, p + 1);
        if e < s.len() && s[e] == '+' {
            Some(s.subrange(p + 1, e))
        } else {
            None
        }
    } else {
        None
    }
}

/// What the phoneme-identity rule yields from position `p` on.
pub open spec fn find_identity_from(s: Seq<char>, p: int) -> Option<Seq<char>>
    decreases s.len() - p when 0 <= p <= s.len()
{
    if 0 <= p < s.len() {
        if identity_at(s, p) is Some {
            identity_at(s, p)
        } else {
            find_identity_from(s, p + 1)
        }
    } else {
        None
    }
}

/// What the phoneme-identity rule yields on the whole line.
pub open spec fn find_identity(s: Seq<char>) -> Option<Seq<char>> {
    find_identity_from(s, 0)
}

fn exec_digit_run_end(s: &str, i: usize) -> (r: usize)
    requires
        i <= s@.len(),
    ensures
        r == digit_run_end(s@, i as int),
        i <= r <= s@.len(),
{
    let slen = s.unicode_len();
    let mut j = i;
    while j < slen
        invariant
            i <= j <= slen,
            slen == s@.len(),
            digit_run_end(s@, i as int) == digit_run_end(s@, j as int),
        decreases slen - j,
    {
        let c = s.get_char(j);
        let cu = c as u32;
        if !(48 <= cu && cu <= 57) {
            return j;
        }
        j += 1;
    }
    j
}

fn exec_plus_run_end(s: &str, i: usize) -> (r: usize)
    requires
        i <= s@.len(),
    ensures
        r == plus_run_end(s@, i as int),
        i <= r <= s@.len(),
{
    let slen = s.unicode_len();
    let mut j = i;
    while j < slen
        invariant
            i <= j <= slen,
            slen == s@.len(),
            plus_run_end(s@, i as int) == plus_run_end(s@, j as int),
        decreases slen - j,
    {
        let c = s.get_char(j);
        if c == '+' || c == '\n' {
            return j;
        }
        j += 1;
    }
    j
}

fn exec_token_at(s: &str, pre: &str, suf: &str, p: usize) -> (r: Option<String>)
    requires
        p <= s@.len(),
    ensures
        r is Some <==> token_at(s@, pre@, suf@, p as int) is Some,
        r is Some ==> r->Some_0@ == token_at(s@, pre@, suf@, p as int)->Some_0,
{
    // Anchors the line's character count to the machine word for the
    // index arithmetic below.
    let _line_len = s.unicode_len();
    if !str_matches_at(s, pre, p) {
        return None;
    }
    let plen = pre.unicode_len();
    let q = p + plen;
    let e = exec_digit_run_end(s, q);
    if e > q && str_matches_at(s, suf, e) {
        return Some(substring(s, q, e));
    }
    if str_matches_at(s, "xx", q) {
        let xlen = "xx".unicode_len();
        proof {
            reveal_strlit("xx");
        }
        if str_matches_at(s, suf, q + xlen) {
            return Some(substring(s, q, q + xlen));
        }
    }
    proof {
        reveal_strlit("xx");
        if seq_matches_at(s@, "xx"@, q as int) && seq_matches_at(s@, suf@, q + 2) {
            assert(false);
        }
    }
    None
}

fn exec_identity_at(s: &str, p: usize) -> (r: Option<String>)
    requires
        p < s@.len(),
    ensures
        r is Some <==> identity_at(s@, p as int) is Some,
        r is Some ==> r->Some_0@ == identity_at(s@, p as int)->Some_0,
{
    let slen = s.unicode_len();
    if s.get_char(p) != '-' {
        return None;
    }
    let e = exec_plus_run_end(s, p + 1);
    if e < slen && s.get_char(e) == '+' {
        return Some(substring(s, p + 1, e));
    }
    None
}

/// Cuts a delimiter-rule field out of `s`: the leftmost full match of
/// `pre`, a digit run or `xx`, then `suf`.
pub fn extract_token(s: &str, pre: &str, suf: &str) -> (r: Option<String>)
    ensures
        r is Some <==> find_token(s@, pre@, suf@) is Some,
        r is Some ==> r->Some_0@ == find_token(s@, pre@, suf@)->Some_0,
{
    let slen = s.unicode_len();
    let mut p: usize = 0;
    while p < slen
        invariant
            p <= slen,
            slen == s@.len(),
            find_token_from(s@, pre@, suf@, 0) == find_token_from(s@, pre@, suf@, p as int),
        decreases slen - p,
    {
        let m = exec_token_at(s, pre, suf, p);
        if m.is_some() {
            return m;
        }
        p += 1;
    }
    None
}

/// Cuts the phoneme-identity field out of `s`: the characters between the
/// leftmost `-` and the `+` that first follows it on the same line.
pub fn extract_identity(s: &str) -> (r: Option<String>)
    ensures
        r is Some <==> find_identity(s@) is Some,
        r is Some ==> r->Some_0@ == find_identity(s@)->Some_0,
{
    let slen = s.unicode_len();
    let mut p: usize = 0;
    while p < slen
        invariant
            p <= slen,
            slen == s@.len(),
            find_identity_from(s@, 0) == find_identity_from(s@, p as int),
        decreases slen - p,
    {
        let m = exec_identity_at(s, p);
        if m.is_some() {
            return m;
        }
        p += 1;
    }
    None
}

/// One phonetic unit, with the ten context fields cut out of its
/// full-context label.
#[verifier::ext_equal]
pub struct Phoneme {
    /// Phoneme identity.
    pub p3: String,
    /// Position within the current mora group.
    pub a2: String,
    /// Position-at-boundary copy of the mora position.
    pub a3: String,
    /// Pause indicator: `xx` denotes a pause segment.
    pub f1: String,
    /// Accent index of the mora's accent phrase.
    pub f2: String,
    /// Interrogative marker of the last mora.
    pub f3: String,
    /// Breath-group-adjacent marker.
    pub f5: String,
    /// Breath-group marker variant.
    pub h1: String,
    /// Breath-group identity within the utterance.
    pub i3: String,
    /// Utterance-level marker.
    pub j1: String,
}

/// The ten context fields of a phoneme, as character sequences.
pub struct PhonemeView {
    pub p3: Seq<char>,
    pub a2: Seq<char>,
    pub a3: Seq<char>,
    pub f1: Seq<char>,
    pub f2: Seq<char>,
    pub f3: Seq<char>,
    pub f5: Seq<char>,
    pub h1: Seq<char>,
    pub i3: Seq<char>,
    pub j1: Seq<char>,
}

impl View for Phoneme {
    type V = PhonemeView;

    open spec fn view(&self) -> PhonemeView {
        PhonemeView {
            p3: self.p3@,
            a2: self.a2@,
            a3: self.a3@,
            f1: self.f1@,
            f2: self.f2@,
            f3: self.f3@,
            f5: self.f5@,
            h1: self.h1@,
            i3: self.i3@,
            j1: self.j1@,
        }
    }
}

impl DeepView for Phoneme {
    type V = PhonemeView;

    open spec fn deep_view(&self) -> PhonemeView {
        self@
    }
}

impl Clone for Phoneme {
    fn clone(&self) -> (r: Self)
        ensures
            r == *self,
    {
        let r = Phoneme {
            p3: self.p3.clone(),
            a2: self.a2.clone(),
            a3: self.a3.clone(),
            f1: self.f1.clone(),
            f2: self.f2.clone(),
            f3: self.f3.clone(),
            f5: self.f5.clone(),
            h1: self.h1.clone(),
            i3: self.i3.clone(),
            j1: self.j1.clone(),
        };
        proof {
            assert(r =~= *self);
        }
        r
    }
}

/// What the ten rules together yield on one label line, if every field is
/// present.
pub open spec fn spec_parse_label(s: Seq<char>) -> Option<PhonemeView> {
    let p3 = find_identity(s);
    let a2 = find_token(s, "+"@, "+"@);
    let a3 = find_token(s, "+"@, "/B:"@);
    let f1 = find_token(s, "/F:"@, "_"@);
    let f2 = find_token(s, "_"@, "#"@);
    let f3 = find_token(s, "#"@, "_"@);
    let f5 = find_token(s, "@"@, "_"@);
    let h1 = find_token(s, "/H:"@, "_"@);
    let i3 = find_token(s, "@"@, "+"@);
    let j1 = find_token(s, "/J:"@, "_"@);
    if p3 is Some && a2 is Some && a3 is Some && f1 is Some && f2 is Some && f3 is Some
        && f5 is Some && h1 is Some && i3 is Some && j1 is Some {
        Some(
            PhonemeView {
                p3: p3->Some_0,
                a2: a2->Some_0,
                a3: a3->Some_0,
                f1: f1->Some_0,
                f2: f2->Some_0,
                f3: f3->Some_0,
                f5: f5->Some_0,
                h1: h1->Some_0,
                i3: i3->Some_0,
                j1: j1->Some_0,
            },
        )
    } else {
        None
    }
}

impl Phoneme {
    /// Reads one full-context label line.  Every one of the ten fields must
    /// be present; a missing field is fatal for the label, since downstream
    /// boundary logic depends on all of them.
    pub fn from_label(label: &str) -> (r: Result<Phoneme, EngineError>)
        ensures
            r is Ok <==> spec_parse_label(label@) is Some,
            r is Ok ==> r->Ok_0@ == spec_parse_label(label@)->Some_0,
            r is Err ==> r->Err_0 == EngineError::LabelParse,
    {
        let p3 = extract_identity(label);
        let a2 = extract_token(label, "+", "+");
        let a3 = extract_token(label, "+", "/B:");
        let f1 = extract_token(label, "/F:", "_");
        let f2 = extract_token(label, "_", "#");
        let f3 = extract_token(label, "#", "_");
        let f5 = extract_token(label, "@", "_");
        let h1 = extract_token(label, "/H:", "_");
        let i3 = extract_token(label, "@", "+");
        let j1 = extract_token(label, "/J:", "_");
        match (p3, a2, a3, f1, f2, f3, f5, h1, i3, j1) {
            (
                Some(p3),
                Some(a2),
                Some(a3),
                Some(f1),
                Some(f2),
                Some(f3),
                Some(f5),
                Some(h1),
                Some(i3),
                Some(j1),
            ) => Ok(Phoneme { p3, a2, a3, f1, f2, f3, f5, h1, i3, j1 }),
            _ => Err(EngineError::LabelParse),
        }
    }

    /// The phoneme identity field.
    pub fn phoneme(&self) -> (r: &str)
        ensures
            r@ == self@.p3,
    {
        self.p3.as_str()
    }

    /// Whether this phoneme marks a pause segment.
    pub fn is_pause(&self) -> (r: bool)
        ensures
            r == (self@.f1 == "xx"@),
    {
        crate::text::str_equal(self.f1.as_str(), "xx")
    }
}

} // verus!
