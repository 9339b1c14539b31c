use vstd::prelude::*;
use vstd::string::StrSliceExecFns;
use vstd::string::StringExecFns;

use crate::text::seq_ends_with;
use crate::text::seq_starts_with;
use crate::text::str_ends_with;
use crate::text::str_starts_with;
use crate::text::substring;

verus! {

// The mora-to-display-text table: each entry maps a (consonant-prefix,
// vowel-suffix) pair to the text shown for the mora.  Entries stand in
// reverse alphabetical order of their consonant, so a longer consonant is
// tried before its one-letter prefix, and the vowel-only entries come
// last.  A devoiced trailing vowel (written upper-case) is folded to lower
// case before the table is consulted, and a mora no entry matches keeps
// its folded symbol text verbatim.

/// How many entries the display-text table holds.
pub const MORA_TABLE_LEN: usize = 133;

/// The display-text table: (text, consonant-prefix, vowel-suffix).
pub open spec fn spec_mora_table() -> Seq<(Seq<char>, Seq<char>, Seq<char>)> {
    seq![
        ("ザ"@, "z"@, "a"@),
        ("ズィ"@, "z"@, "i"@),
        ("ズ"@, "z"@, "u"@),
        ("ゼ"@, "z"@, "e"@),
        ("ゾ"@, "z"@, "o"@),
        ("ヤ"@, "y"@, "a"@),
        ("ユ"@, "y"@, "u"@),
        ("イェ"@, "y"@, "e"@),
        ("ヨ"@, "y"@, "o"@),
        ("ワ"@, "w"@, "a"@),
        ("ウィ"@, "w"@, "i"@),
        ("ウェ"@, "w"@, "e"@),
        ("ウォ"@, "w"@, "o"@),
        ("ヴァ"@, "v"@, "a"@),
        ("ヴィ"@, "v"@, "i"@),
        ("ヴ"@, "v"@, "u"@),
        ("ヴェ"@, "v"@, "e"@),
        ("ヴォ"@, "v"@, "o"@),
        ("テュ"@, "ty"@, "u"@),
        ("ツァ"@, "ts"@, "a"@),
        ("ツィ"@, "ts"@, "i"@),
        ("ツ"@, "ts"@, "u"@),
        ("ツェ"@, "ts"@, "e"@),
        ("ツォ"@, "ts"@, "o"@),
        ("タ"@, "t"@, "a"@),
        ("ティ"@, "t"@, "i"@),
        ("トゥ"@, "t"@, "u"@),
        ("テ"@, "t"@, "e"@),
        ("ト"@, "t"@, "o"@),
        ("シャ"@, "sh"@, "a"@),
        ("シ"@, "sh"@, "i"@),
        ("シュ"@, "sh"@, "u"@),
        ("シェ"@, "sh"@, "e"@),
        ("ショ"@, "sh"@, "o"@),
        ("サ"@, "s"@, "a"@),
        ("スィ"@, "s"@, "i"@),
        ("ス"@, "s"@, "u"@),
        ("セ"@, "s"@, "e"@),
        ("ソ"@, "s"@, "o"@),
        ("リャ"@, "ry"@, "a"@),
        ("リュ"@, "ry"@, "u"@),
        ("リェ"@, "ry"@, "e"@),
        ("リョ"@, "ry"@, "o"@),
        ("ラ"@, "r"@, "a"@),
        ("リ"@, "r"@, "i"@),
        ("ル"@, "r"@, "u"@),
        ("レ"@, "r"@, "e"@),
        ("ロ"@, "r"@, "o"@),
        ("ピャ"@, "py"@, "a"@),
        ("ピュ"@, "py"@, "u"@),
        ("ピョ"@, "py"@, "o"@),
        ("パ"@, "p"@, "a"@),
        ("ピ"@, "p"@, "i"@),
        ("プ"@, "p"@, "u"@),
        ("ペ"@, "p"@, "e"@),
        ("ポ"@, "p"@, "o"@),
        ("ニャ"@, "ny"@, "a"@),
        ("ニュ"@, "ny"@, "u"@),
        ("ニョ"@, "ny"@, "o"@),
        ("ナ"@, "n"@, "a"@),
        ("ニ"@, "n"@, "i"@),
        ("ヌ"@, "n"@, "u"@),
        ("ネ"@, "n"@, "e"@),
        ("ノ"@, "n"@, "o"@),
        ("ミャ"@, "my"@, "a"@),
        ("ミュ"@, "my"@, "u"@),
        ("ミョ"@, "my"@, "o"@),
        ("マ"@, "m"@, "a"@),
        ("ミ"@, "m"@, "i"@),
        ("ム"@, "m"@, "u"@),
        ("メ"@, "m"@, "e"@),
        ("モ"@, "m"@, "o"@),
        ("キャ"@, "ky"@, "a"@),
        ("キュ"@, "ky"@, "u"@),
        ("キョ"@, "ky"@, "o"@),
        ("クヮ"@, "kw"@, "a"@),
        ("カ"@, "k"@, "a"@),
        ("キ"@, "k"@, "i"@),
        ("ク"@, "k"@, "u"@),
        ("ケ"@, "k"@, "e"@),
        ("コ"@, "k"@, "o"@),
        ("ジャ"@, "j"@, "a"@),
        ("ジ"@, "j"@, "i"@),
        ("ジュ"@, "j"@, "u"@),
        ("ジェ"@, "j"@, "e"@),
        ("ジョ"@, "j"@, "o"@),
        ("ヒャ"@, "hy"@, "a"@),
        ("ヒュ"@, "hy"@, "u"@),
        ("ヒョ"@, "hy"@, "o"@),
        ("ハ"@, "h"@, "a"@),
        ("ヒ"@, "h"@, "i"@),
        ("ヘ"@, "h"@, "e"@),
        ("ホ"@, "h"@, "o"@),
        ("ギャ"@, "gy"@, "a"@),
        ("ギュ"@, "gy"@, "u"@),
        ("ギョ"@, "gy"@, "o"@),
        ("グヮ"@, "gw"@, "a"@),
        ("ガ"@, "g"@, "a"@),
        ("ギ"@, "g"@, "i"@),
        ("グ"@, "g"@, "u"@),
        ("ゲ"@, "g"@, "e"@),
        ("ゴ"@, "g"@, "o"@),
        ("ファ"@, "f"@, "a"@),
        ("フィ"@, "f"@, "i"@),
        ("フ"@, "f"@, "u"@),
        ("フェ"@, "f"@, "e"@),
        ("フォ"@, "f"@, "o"@),
        ("デュ"@, "dy"@, "u"@),
        ("ダ"@, "d"@, "a"@),
        ("ディ"@, "d"@, "i"@),
        ("ドゥ"@, "d"@, "u"@),
        ("デ"@, "d"@, "e"@),
        ("ド"@, "d"@, "o"@),
        ("チャ"@, "ch"@, "a"@),
        ("チ"@, "ch"@, "i"@),
        ("チュ"@, "ch"@, "u"@),
        ("チェ"@, "ch"@, "e"@),
        ("チョ"@, "ch"@, "o"@),
        ("ビャ"@, "by"@, "a"@),
        ("ビュ"@, "by"@, "u"@),
        ("ビョ"@, "by"@, "o"@),
        ("バ"@, "b"@, "a"@),
        ("ビ"@, "b"@, "i"@),
        ("ブ"@, "b"@, "u"@),
        ("ベ"@, "b"@, "e"@),
        ("ボ"@, "b"@, "o"@),
        ("ア"@, ""@, "a"@),
        ("イ"@, ""@, "i"@),
        ("ウ"@, ""@, "u"@),
        ("エ"@, ""@, "e"@),
        ("オ"@, ""@, "o"@),
        ("ン"@, ""@, "N"@),
        ("ッ"@, ""@, "cl"@),
    ]
}

/// The table entry at position `i`: (text, consonant-prefix, vowel-suffix).
pub fn mora_entry(i: usize) -> (r: (&'static str, &'static str, &'static str))
    requires
        i < MORA_TABLE_LEN,
    ensures
        (r.0@, r.1@, r.2@) == spec_mora_table()[i as int],
{
    match i {
        0 => ("ザ", "z", "a"),
        1 => ("ズィ", "z", "i"),
        2 => ("ズ", "z", "u"),
        3 => ("ゼ", "z", "e"),
        4 => ("ゾ", "z", "o"),
        5 => ("ヤ", "y", "a"),
        6 => ("ユ", "y", "u"),
        7 => ("イェ", "y", "e"),
        8 => ("ヨ", "y", "o"),
        9 => ("ワ", "w", "a"),
        10 => ("ウィ", "w", "i"),
        11 => ("ウェ", "w", "e"),
        12 => ("ウォ", "w", "o"),
        13 => ("ヴァ", "v", "a"),
        14 => ("ヴィ", "v", "i"),
        15 => ("ヴ", "v", "u"),
        16 => ("ヴェ", "v", "e"),
        17 => ("ヴォ", "v", "o"),
        18 => ("テュ", "ty", "u"),
        19 => ("ツァ", "ts", "a"),
        20 => ("ツィ", "ts", "i"),
        21 => ("ツ", "ts", "u"),
        22 => ("ツェ", "ts", "e"),
        23 => ("ツォ", "ts", "o"),
        24 => ("タ", "t", "a"),
        25 => ("ティ", "t", "i"),
        26 => ("トゥ", "t", "u"),
        27 => ("テ", "t", "e"),
        28 => ("ト", "t", "o"),
        29 => ("シャ", "sh", "a"),
        30 => ("シ", "sh", "i"),
        31 => ("シュ", "sh", "u"),
        32 => ("シェ", "sh", "e"),
        33 => ("ショ", "sh", "o"),
        34 => ("サ", "s", "a"),
        35 => ("スィ", "s", "i"),
        36 => ("ス", "s", "u"),
        37 => ("セ", "s", "e"),
        38 => ("ソ", "s", "o"),
        39 => ("リャ", "ry", "a"),
        40 => ("リュ", "ry", "u"),
        41 => ("リェ", "ry", "e"),
        42 => ("リョ", "ry", "o"),
        43 => ("ラ", "r", "a"),
        44 => ("リ", "r", "i"),
        45 => ("ル", "r", "u"),
        46 => ("レ", "r", "e"),
        47 => ("ロ", "r", "o"),
        48 => ("ピャ", "py", "a"),
        49 => ("ピュ", "py", "u"),
        50 => ("ピョ", "py", "o"),
        51 => ("パ", "p", "a"),
        52 => ("ピ", "p", "i"),
        53 => ("プ", "p", "u"),
        54 => ("ペ", "p", "e"),
        55 => ("ポ", "p", "o"),
        56 => ("ニャ", "ny", "a"),
        57 => ("ニュ", "ny", "u"),
        58 => ("ニョ", "ny", "o"),
        59 => ("ナ", "n", "a"),
        60 => ("ニ", "n", "i"),
        61 => ("ヌ", "n", "u"),
        62 => ("ネ", "n", "e"),
        63 => ("ノ", "n", "o"),
        64 => ("ミャ", "my", "a"),
        65 => ("ミュ", "my", "u"),
        66 => ("ミョ", "my", "o"),
        67 => ("マ", "m", "a"),
        68 => ("ミ", "m", "i"),
        69 => ("ム", "m", "u"),
        70 => ("メ", "m", "e"),
        71 => ("モ", "m", "o"),
        72 => ("キャ", "ky", "a"),
        73 => ("キュ", "ky", "u"),
        74 => ("キョ", "ky", "o"),
        75 => ("クヮ", "kw", "a"),
        76 => ("カ", "k", "a"),
        77 => ("キ", "k", "i"),
        78 => ("ク", "k", "u"),
        79 => ("ケ", "k", "e"),
        80 => ("コ", "k", "o"),
        81 => ("ジャ", "j", "a"),
        82 => ("ジ", "j", "i"),
        83 => ("ジュ", "j", "u"),
        84 => ("ジェ", "j", "e"),
        85 => ("ジョ", "j", "o"),
        86 => ("ヒャ", "hy", "a"),
        87 => ("ヒュ", "hy", "u"),
        88 => ("ヒョ", "hy", "o"),
        89 => ("ハ", "h", "a"),
        90 => ("ヒ", "h", "i"),
        91 => ("ヘ", "h", "e"),
        92 => ("ホ", "h", "o"),
        93 => ("ギャ", "gy", "a"),
        94 => ("ギュ", "gy", "u"),
        95 => ("ギョ", "gy", "o"),
        96 => ("グヮ", "gw", "a"),
        97 => ("ガ", "g", "a"),
        98 => ("ギ", "g", "i"),
        99 => ("グ", "g", "u"),
        100 => ("ゲ", "g", "e"),
        101 => ("ゴ", "g", "o"),
        102 => ("ファ", "f", "a"),
        103 => ("フィ", "f", "i"),
        104 => ("フ", "f", "u"),
        105 => ("フェ", "f", "e"),
        106 => ("フォ", "f", "o"),
        107 => ("デュ", "dy", "u"),
        108 => ("ダ", "d", "a"),
        109 => ("ディ", "d", "i"),
        110 => ("ドゥ", "d", "u"),
        111 => ("デ", "d", "e"),
        112 => ("ド", "d", "o"),
        113 => ("チャ", "ch", "a"),
        114 => ("チ", "ch", "i"),
        115 => ("チュ", "ch", "u"),
        116 => ("チェ", "ch", "e"),
        117 => ("チョ", "ch", "o"),
        118 => ("ビャ", "by", "a"),
        119 => ("ビュ", "by", "u"),
        120 => ("ビョ", "by", "o"),
        121 => ("バ", "b", "a"),
        122 => ("ビ", "b", "i"),
        123 => ("ブ", "b", "u"),
        124 => ("ベ", "b", "e"),
        125 => ("ボ", "b", "o"),
        126 => ("ア", "", "a"),
        127 => ("イ", "", "i"),
        128 => ("ウ", "", "u"),
        129 => ("エ", "", "e"),
        130 => ("オ", "", "o"),
        131 => ("ン", "", "N"),
        132 => ("ッ", "", "cl"),
        _ => ("", "", ""),
    }
}

/// The display text of the first table entry from `i` on whose consonant
/// prefixes `m` and whose vowel suffixes it, if any.
pub open spec fn lookup_from(m: Seq<char>, i: int) -> Option<Seq<char>>
    decreases MORA_TABLE_LEN - i when 0 <= i <= MORA_TABLE_LEN
{
    if i >= MORA_TABLE_LEN {
        None
    } else {
        let e = spec_mora_table()[i];
        if seq_starts_with(m, e.1) && seq_ends_with(m, e.2) {
            Some(e.0)
        } else {
            lookup_from(m, i + 1)
        }
    }
}

/// Whether `c` writes a devoiced vowel.
pub open spec fn is_devoiced_vowel(c: char) -> bool {
    c == 'A' || c == 'I' || c == 'U' || c == 'E' || c == 'O'
}

/// The lower-case letter of a devoiced vowel.
pub open spec fn voiced_of(c: char) -> char {
    if c == 'A' {
        'a'
    } else if c == 'I' {
        'i'
    } else if c == 'U' {
        'u'
    } else if c == 'E' {
        'e'
    } else if c == 'O' {
        'o'
    } else {
        c
    }
}

/// A mora symbol with a devoiced trailing vowel folded to lower case.
pub open spec fn spec_fold_mora(m: Seq<char>) -> Seq<char> {
    if m.len() > 0 && is_devoiced_vowel(m.last()) {
        m.drop_last().push(voiced_of(m.last()))
    } else {
        m
    }
}

/// The display text of a mora symbol: the folded symbol's first table
/// match, or the folded symbol itself when no entry matches.
pub open spec fn spec_mora_to_text(m: Seq<char>) -> Seq<char> {
    match lookup_from(spec_fold_mora(m), 0) {
        Some(t) => t,
        None => spec_fold_mora(m),
    }
}

/// Renders a mora's concatenated phoneme symbols as display text.
pub fn mora_to_text(mora: String) -> (r: String)
    ensures
        r@ == spec_mora_to_text(mora@),
{
    let len = mora.as_str().unicode_len();
    let folded: String = if len > 0 {
        let c = mora.as_str().get_char(len - 1);
        if c == 'A' || c == 'I' || c == 'U' || c == 'E' || c == 'O' {
            let head = substring(mora.as_str(), 0, len - 1);
            let tail: &str = if c == 'A' {
                "a"
            } else if c == 'I' {
                "i"
            } else if c == 'U' {
                "u"
            } else if c == 'E' {
                "e"
            } else {
                "o"
            };
            proof {
                reveal_strlit("a");
                reveal_strlit("i");
                reveal_strlit("u");
                reveal_strlit("e");
                reveal_strlit("o");
            }
            let f = head.concat(tail);
            proof {
                assert(f@ =~= spec_fold_mora(mora@));
            }
            f
        } else {
            mora
        }
    } else {
        mora
    };
    let mut i: usize = 0;
    while i < MORA_TABLE_LEN
        invariant
            0 <= i <= MORA_TABLE_LEN,
            folded@ == spec_fold_mora(mora@),
            lookup_from(folded@, 0) == lookup_from(folded@, i as int),
        decreases MORA_TABLE_LEN - i,
    {
        let e = mora_entry(i);
        if str_starts_with(folded.as_str(), e.1) && str_ends_with(folded.as_str(), e.2) {
            return String::from_str(e.0);
        }
        i += 1;
    }
    folded
}

} // verus!
