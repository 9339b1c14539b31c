use vstd::prelude::*;
use vstd::string::StringExecFns;

use crate::text::seq_contains_sub;
use crate::text::str_contains;
use crate::text::str_equal;

verus! {

// The phoneme-symbol codec: a fixed table of the recognized phoneme
// symbols, each encoded as its position in the table.  The table is the
// static data the statistical models were trained against; the silence
// symbol holds position zero.

/// How many phoneme classes the codec distinguishes.
pub const NUM_PHONEME: usize = 45;

/// The codec's symbol table, in encoding order.
pub open spec fn spec_phoneme_list() -> Seq<Seq<char>> {
    seq![
        "pau"@, "A"@, "E"@, "I"@, "N"@, "O"@, "U"@, "a"@, "b"@, "by"@, "ch"@, "cl"@, "d"@,
        "dy"@, "e"@, "f"@, "g"@, "gw"@, "gy"@, "h"@, "hy"@, "i"@, "j"@, "k"@, "kw"@, "ky"@,
        "m"@, "my"@, "n"@, "ny"@, "o"@, "p"@, "py"@, "r"@, "ry"@, "s"@, "sh"@, "t"@, "ts"@,
        "ty"@, "u"@, "v"@, "w"@, "y"@, "z"@,
    ]
}

/// The symbol at position `i` of the codec's table.
pub fn phoneme_symbol(i: usize) -> (r: &'static str)
    requires
        i < NUM_PHONEME,
    ensures
        r@ == spec_phoneme_list()[i as int],
{
    match i {
        0 => "pau",
        1 => "A",
        2 => "E",
        3 => "I",
        4 => "N",
        5 => "O",
        6 => "U",
        7 => "a",
        8 => "b",
        9 => "by",
        10 => "ch",
        11 => "cl",
        12 => "d",
        13 => "dy",
        14 => "e",
        15 => "f",
        16 => "g",
        17 => "gw",
        18 => "gy",
        19 => "h",
        20 => "hy",
        21 => "i",
        22 => "j",
        23 => "k",
        24 => "kw",
        25 => "ky",
        26 => "m",
        27 => "my",
        28 => "n",
        29 => "ny",
        30 => "o",
        31 => "p",
        32 => "py",
        33 => "r",
        34 => "ry",
        35 => "s",
        36 => "sh",
        37 => "t",
        38 => "ts",
        39 => "ty",
        40 => "u",
        41 => "v",
        42 => "w",
        43 => "y",
        44 => "z",
        _ => "pau",
    }
}

/// The position of `s` in the codec's table from entry `i` on, or `-1`.
pub open spec fn index_in_list(s: Seq<char>, i: int) -> int
    decreases NUM_PHONEME - i when 0 <= i <= NUM_PHONEME
{
    if i >= NUM_PHONEME {
        -1
    } else if spec_phoneme_list()[i] == s {
        i
    } else {
        index_in_list(s, i + 1)
    }
}

/// What the codec encodes a symbol as: its position in the table, or `-1`
/// for a symbol outside the table (the empty symbol among them, which
/// stands for a missing consonant).
pub open spec fn spec_phoneme_id(s: Seq<char>) -> int {
    index_in_list(s, 0)
}

/// One phoneme symbol on its way through the numeric pipeline.
pub struct OjtPhoneme {
    pub phoneme: String,
}

impl View for OjtPhoneme {
    type V = Seq<char>;

    open spec fn view(&self) -> Seq<char> {
        self.phoneme@
    }
}

impl DeepView for OjtPhoneme {
    type V = Seq<char>;

    open spec fn deep_view(&self) -> Seq<char> {
        self@
    }
}

impl Clone for OjtPhoneme {
    fn clone(&self) -> (r: Self)
        ensures
            r == *self,
    {
        let r = OjtPhoneme { phoneme: self.phoneme.clone() };
        proof {
            assert(r =~= *self);
        }
        r
    }
}

impl OjtPhoneme {
    /// The integer the codec encodes this symbol as.
    pub fn phoneme_id(&self) -> (r: i64)
        ensures
            r == spec_phoneme_id(self@),
    {
        let mut i: usize = 0;
        while i < NUM_PHONEME
            invariant
                0 <= i <= NUM_PHONEME,
                index_in_list(self@, 0) == index_in_list(self@, i as int),
            decreases NUM_PHONEME - i,
        {
            if str_equal(self.phoneme.as_str(), phoneme_symbol(i)) {
                return i as i64;
            }
            i += 1;
        }
        -1
    }

    /// Normalizes the boundary silence symbols of a flat phoneme sequence:
    /// a first or last symbol that mentions `sil` becomes the pause symbol.
    pub fn convert(phonemes: Vec<OjtPhoneme>) -> (r: Vec<OjtPhoneme>)
        ensures
            r.deep_view() == spec_convert(phonemes.deep_view()),
    {
        let mut v = phonemes;
        let n = v.len();
        if n > 0 {
            if str_contains(v[0].phoneme.as_str(), "sil") {
                v[0] = OjtPhoneme { phoneme: String::from_str("pau") };
            }
            if str_contains(v[n - 1].phoneme.as_str(), "sil") {
                v[n - 1] = OjtPhoneme { phoneme: String::from_str("pau") };
            }
        }
        proof {
            assert(v.deep_view() =~= spec_convert(phonemes.deep_view()));
        }
        v
    }
}

/// What boundary normalization does to a flat symbol sequence.
pub open spec fn spec_convert(ps: Seq<Seq<char>>) -> Seq<Seq<char>> {
    if ps.len() == 0 {
        ps
    } else {
        let a = if seq_contains_sub(ps[0], "sil"@) {
            ps.update(0, "pau"@)
        } else {
            ps
        };
        if seq_contains_sub(a[a.len() - 1], "sil"@) {
            a.update(a.len() - 1, "pau"@)
        } else {
            a
        }
    }
}

} // verus!
