use vstd::prelude::*;
use vstd::string::StringExecFns;

use crate::model::AccentPhraseModel;
use crate::model::AccentPhraseModelView;
use crate::model::MoraModel;
use crate::model::MoraModelView;
use crate::ojt_phoneme::spec_convert;
use crate::ojt_phoneme::OjtPhoneme;
use crate::text::seq_contains_sub;

verus! {

// Every pipeline stage recomputes the same two derived tables from the
// accent-phrase models: the flat phoneme-symbol sequence (a leading pause,
// each mora's consonant and vowel, every synthetic pause mora, a trailing
// pause) and the vowel-index table that aligns mora-level values with
// positions of that flat sequence.  Recomputing them keeps the stages
// independent pure transforms.

/// The moras of one accent phrase in flat order, the synthetic pause mora
/// included.
pub open spec fn phrase_moras(ap: AccentPhraseModelView) -> Seq<MoraModelView> {
    ap.moras + match ap.pause_mora {
        Some(p) => seq![p],
        None => Seq::<MoraModelView>::empty(),
    }
}

/// All moras of the utterance in flat order.
pub open spec fn spec_flatten_moras(phrases: Seq<AccentPhraseModelView>) -> Seq<MoraModelView>
    decreases phrases.len(),
{
    if phrases.len() == 0 {
        Seq::empty()
    } else {
        phrase_moras(phrases[0]) + spec_flatten_moras(phrases.drop_first())
    }
}

/// The phoneme symbols of one mora: the consonant, if any, then the vowel.
pub open spec fn mora_symbols(m: MoraModelView) -> Seq<Seq<char>> {
    match m.consonant {
        Some(c) => seq![c, m.vowel],
        None => seq![m.vowel],
    }
}

/// The phoneme symbols of a mora sequence, in order.
pub open spec fn spec_mora_symbols(ms: Seq<MoraModelView>) -> Seq<Seq<char>>
    decreases ms.len(),
{
    if ms.len() == 0 {
        Seq::empty()
    } else {
        mora_symbols(ms[0]) + spec_mora_symbols(ms.drop_first())
    }
}

/// The flat phoneme-symbol sequence of the utterance: a leading pause,
/// every mora's symbols, a trailing pause.
pub open spec fn spec_flat_symbols(phrases: Seq<AccentPhraseModelView>) -> Seq<Seq<char>> {
    seq!["pau"@] + spec_mora_symbols(spec_flatten_moras(phrases)) + seq!["pau"@]
}

/// The flat symbol sequence after boundary normalization, as the numeric
/// pipeline receives it.
pub open spec fn spec_phoneme_data(phrases: Seq<AccentPhraseModelView>) -> Seq<Seq<char>> {
    spec_convert(spec_flat_symbols(phrases))
}

/// How many flat positions one mora occupies.
pub open spec fn mora_weight(m: MoraModelView) -> int {
    if m.consonant is Some {
        2
    } else {
        1
    }
}

/// How many flat positions a mora sequence occupies.
pub open spec fn total_weight(ms: Seq<MoraModelView>) -> int
    decreases ms.len(),
{
    if ms.len() == 0 {
        0
    } else {
        mora_weight(ms[0]) + total_weight(ms.drop_first())
    }
}

pub proof fn lemma_total_weight_bounds(ms: Seq<MoraModelView>)
    ensures
        ms.len() <= total_weight(ms) <= 2 * ms.len(),
    decreases ms.len(),
{
    if ms.len() > 0 {
        lemma_total_weight_bounds(ms.drop_first());
    }
}

pub proof fn lemma_mora_symbols_len(ms: Seq<MoraModelView>)
    ensures
        spec_mora_symbols(ms).len() == total_weight(ms),
    decreases ms.len(),
{
    if ms.len() > 0 {
        lemma_mora_symbols_len(ms.drop_first());
    }
}

/// The boundary normalization leaves the flat sequence unchanged: both of
/// its boundary symbols are the pause symbol, which does not mention the
/// silence symbol.
pub proof fn lemma_convert_identity(phrases: Seq<AccentPhraseModelView>)
    ensures
        spec_phoneme_data(phrases) == spec_flat_symbols(phrases),
{
    let fs = spec_flat_symbols(phrases);
    assert(fs.len() >= 2);
    assert(fs[0] == "pau"@);
    assert(fs[fs.len() - 1] == "pau"@);
    reveal_strlit("pau");
    reveal_strlit("sil");
    assert forall|i: int| !crate::text::seq_matches_at("pau"@, "sil"@, i) by {
        if 0 <= i && i + 3 <= 3 {
            assert("pau"@[0] == 'p' && "sil"@[0] == 's');
            assert("pau"@.subrange(0, 3)[0] == 'p');
        }
    }
    assert(!seq_contains_sub("pau"@, "sil"@));
}

/// The flat sequence holds exactly two pause slots more than the weighted
/// mora count: one flat position for every consonant, one for every vowel,
/// and the two boundary pauses.
pub proof fn lemma_flat_symbol_count(phrases: Seq<AccentPhraseModelView>)
    ensures
        spec_phoneme_data(phrases).len() == 2 + total_weight(spec_flatten_moras(phrases)),
{
    lemma_convert_identity(phrases);
    lemma_mora_symbols_len(spec_flatten_moras(phrases));
}

/// Flattens the accent-phrase models and derives the flat phoneme-symbol
/// sequence the numeric services consume.
pub fn initial_process(accent_phrases: &Vec<AccentPhraseModel>) -> (r: (
    Vec<MoraModel>,
    Vec<OjtPhoneme>,
))
    ensures
        r.0.deep_view() == spec_flatten_moras(accent_phrases.deep_view()),
        r.1.deep_view() == spec_phoneme_data(accent_phrases.deep_view()),
{
    let ghost dv = accent_phrases.deep_view();
    let n = accent_phrases.len();
    let mut flat: Vec<MoraModel> = Vec::new();
    let mut i: usize = 0;
    proof {
        assert(dv.skip(0) =~= dv);
        assert(flat.deep_view() =~= Seq::<MoraModelView>::empty());
        assert(flat.deep_view() + spec_flatten_moras(dv.skip(0)) =~= spec_flatten_moras(dv));
    }
    while i < n
        invariant
            0 <= i <= n,
            n == dv.len(),
            dv == accent_phrases.deep_view(),
            flat.deep_view() + spec_flatten_moras(dv.skip(i as int)) =~= spec_flatten_moras(dv),
        decreases n - i,
    {
        let ghost before = flat.deep_view();
        let phrase = &accent_phrases[i];
        let ghost ap = dv[i as int];
        proof {
            assert(phrase@ == ap);
        }
        let nm = phrase.moras.len();
        let mut k: usize = 0;
        while k < nm
            invariant
                0 <= k <= nm,
                0 <= i < n,
                n == dv.len(),
                dv == accent_phrases.deep_view(),
                ap == dv[i as int],
                accent_phrases@[i as int]@ == ap,
                nm == ap.moras.len(),
                flat.deep_view() =~= before + ap.moras.take(k as int),
            decreases nm - k,
        {
            let ghost old_dv = flat.deep_view();
            let m = accent_phrases[i].moras[k].clone();
            proof {
                assert(accent_phrases@[i as int].moras@[k as int]@ == ap.moras[k as int]);
                assert(m@ == ap.moras[k as int]);
            }
            flat.push(m);
            proof {
                assert(flat.deep_view().len() == old_dv.len() + 1);
                assert(flat.deep_view() =~= old_dv.push(ap.moras[k as int]));
                assert(flat.deep_view() =~= before + ap.moras.take(k + 1));
            }
            k += 1;
        }
        match &accent_phrases[i].pause_mora {
            Some(p) => {
                let ghost old_dv = flat.deep_view();
                let pc = p.clone();
                proof {
                    assert(pc@ == ap.pause_mora->Some_0);
                }
                flat.push(pc);
                proof {
                    assert(flat.deep_view() =~= old_dv.push(ap.pause_mora->Some_0));
                }
            },
            None => {},
        }
        proof {
            assert(ap.moras.take(nm as int) =~= ap.moras);
            assert(flat.deep_view() =~= before + phrase_moras(ap));
            assert(dv.skip(i as int)[0] == ap);
            assert(dv.skip(i as int).drop_first() =~= dv.skip(i + 1));
            assert(spec_flatten_moras(dv.skip(i as int)) == phrase_moras(ap) + spec_flatten_moras(
                dv.skip(i + 1),
            ));
            assert(flat.deep_view() + spec_flatten_moras(dv.skip(i + 1)) =~= spec_flatten_moras(
                dv,
            ));
        }
        i += 1;
    }
    proof {
        assert(dv.skip(n as int) =~= Seq::<AccentPhraseModelView>::empty());
        assert(flat.deep_view() =~= spec_flatten_moras(dv));
    }

    let ghost ms = spec_flatten_moras(dv);
    let nf = flat.len();
    let mut symbols: Vec<OjtPhoneme> = Vec::new();
    symbols.push(OjtPhoneme { phoneme: String::from_str("pau") });
    let mut k: usize = 0;
    proof {
        assert(ms.skip(0) =~= ms);
        assert(symbols.deep_view() =~= seq!["pau"@]);
        assert(symbols.deep_view() + spec_mora_symbols(ms.skip(0)) =~= seq!["pau"@]
            + spec_mora_symbols(ms));
    }
    while k < nf
        invariant
            0 <= k <= nf,
            nf == ms.len(),
            flat.deep_view() == ms,
            symbols.deep_view() + spec_mora_symbols(ms.skip(k as int)) =~= seq!["pau"@]
                + spec_mora_symbols(ms),
        decreases nf - k,
    {
        let ghost before = symbols.deep_view();
        let ghost m = ms[k as int];
        match &flat[k].consonant {
            Some(c) => {
                let ghost old_dv = symbols.deep_view();
                symbols.push(OjtPhoneme { phoneme: c.clone() });
                proof {
                    assert(flat@[k as int]@ == m);
                    assert(symbols.deep_view() =~= old_dv.push(m.consonant->Some_0));
                }
            },
            None => {},
        }
        let ghost old_dv = symbols.deep_view();
        symbols.push(OjtPhoneme { phoneme: flat[k].vowel.clone() });
        proof {
            assert(flat@[k as int]@ == m);
            assert(symbols.deep_view() =~= old_dv.push(m.vowel));
            assert(symbols.deep_view() =~= before + mora_symbols(m));
            assert(ms.skip(k as int)[0] == m);
            assert(ms.skip(k as int).drop_first() =~= ms.skip(k + 1));
            assert(spec_mora_symbols(ms.skip(k as int)) == mora_symbols(m) + spec_mora_symbols(
                ms.skip(k + 1),
            ));
            assert(symbols.deep_view() + spec_mora_symbols(ms.skip(k + 1)) =~= seq!["pau"@]
                + spec_mora_symbols(ms));
        }
        k += 1;
    }
    let ghost old_dv = symbols.deep_view();
    symbols.push(OjtPhoneme { phoneme: String::from_str("pau") });
    proof {
        assert(ms.skip(nf as int) =~= Seq::<MoraModelView>::empty());
        assert(symbols.deep_view() =~= old_dv.push("pau"@));
        assert(symbols.deep_view() =~= spec_flat_symbols(dv));
    }
    let symbols = OjtPhoneme::convert(symbols);
    (flat, symbols)
}

/// Whether a symbol closes a mora in the flat sequence: a plain or
/// devoiced vowel, the moraic nasal, the sokuon stop, or the pause symbol.
pub open spec fn is_mora_symbol(s: Seq<char>) -> bool {
    ||| s == "a"@
    ||| s == "i"@
    ||| s == "u"@
    ||| s == "e"@
    ||| s == "o"@
    ||| s == "N"@
    ||| s == "A"@
    ||| s == "I"@
    ||| s == "U"@
    ||| s == "E"@
    ||| s == "O"@
    ||| s == "cl"@
    ||| s == "pau"@
}

/// Whether a vowel slot is silent by nature: a devoiced vowel, the sokuon
/// stop, or the pause symbol.
pub open spec fn is_unvoiced_symbol(s: Seq<char>) -> bool {
    ||| s == "A"@
    ||| s == "I"@
    ||| s == "U"@
    ||| s == "E"@
    ||| s == "O"@
    ||| s == "cl"@
    ||| s == "pau"@
}

/// Checks [`is_mora_symbol`] on a symbol.
pub fn symbol_is_mora(s: &str) -> (r: bool)
    ensures
        r == is_mora_symbol(s@),
{
    crate::text::str_equal(s, "a") || crate::text::str_equal(s, "i") || crate::text::str_equal(
        s,
        "u",
    ) || crate::text::str_equal(s, "e") || crate::text::str_equal(s, "o")
        || crate::text::str_equal(s, "N") || crate::text::str_equal(s, "A")
        || crate::text::str_equal(s, "I") || crate::text::str_equal(s, "U")
        || crate::text::str_equal(s, "E") || crate::text::str_equal(s, "O")
        || crate::text::str_equal(s, "cl") || crate::text::str_equal(s, "pau")
}

/// Checks [`is_unvoiced_symbol`] on a symbol.
pub fn symbol_is_unvoiced(s: &str) -> (r: bool)
    ensures
        r == is_unvoiced_symbol(s@),
{
    crate::text::str_equal(s, "A") || crate::text::str_equal(s, "I") || crate::text::str_equal(
        s,
        "U",
    ) || crate::text::str_equal(s, "E") || crate::text::str_equal(s, "O")
        || crate::text::str_equal(s, "cl") || crate::text::str_equal(s, "pau")
}

/// The positions at or after `i` of the flat sequence whose symbol closes
/// a mora, in ascending order.
pub open spec fn vidx_from(ps: Seq<Seq<char>>, i: int) -> Seq<int>
    decreases ps.len() - i when 0 <= i <= ps.len()
{
    if i >= ps.len() {
        Seq::empty()
    } else if is_mora_symbol(ps[i]) {
        seq![i] + vidx_from(ps, i + 1)
    } else {
        vidx_from(ps, i + 1)
    }
}

/// The vowel-index table of a flat symbol sequence: the positions whose
/// symbol closes a mora, in ascending order.
pub open spec fn spec_vowel_indexes(ps: Seq<Seq<char>>) -> Seq<int> {
    vidx_from(ps, 0)
}

pub proof fn lemma_vidx_bounds(ps: Seq<Seq<char>>, i: int)
    requires
        0 <= i <= ps.len(),
    ensures
        forall|k: int| 0 <= k < vidx_from(ps, i).len() ==> i <= #[trigger] vidx_from(ps, i)[k]
            < ps.len(),
        forall|k1: int, k2: int| 0 <= k1 < k2 < vidx_from(ps, i).len() ==> #[trigger] vidx_from(
            ps,
            i,
        )[k1] < #[trigger] vidx_from(ps, i)[k2],
        forall|k: int| 0 <= k < vidx_from(ps, i).len() ==> is_mora_symbol(
            ps[#[trigger] vidx_from(ps, i)[k]],
        ),
    decreases ps.len() - i,
{
    if i < ps.len() {
        lemma_vidx_bounds(ps, i + 1);
        let rest = vidx_from(ps, i + 1);
        let cur = vidx_from(ps, i);
        if is_mora_symbol(ps[i]) {
            assert(cur == seq![i] + rest);
            assert(cur[0] == i);
            assert(forall|k: int| 1 <= k < cur.len() ==> #[trigger] cur[k] == rest[k - 1]);
            assert forall|k: int| 0 <= k < cur.len() implies i <= #[trigger] cur[k] < ps.len() by {
                if k >= 1 {
                    assert(cur[k] == rest[k - 1]);
                }
            }
            assert forall|k1: int, k2: int| 0 <= k1 < k2 < cur.len() implies #[trigger] cur[k1]
                < #[trigger] cur[k2] by {
                assert(cur[k2] == rest[k2 - 1]);
                if k1 >= 1 {
                    assert(cur[k1] == rest[k1 - 1]);
                }
            }
            assert forall|k: int| 0 <= k < cur.len() implies is_mora_symbol(
                ps[#[trigger] cur[k]],
            ) by {
                if k >= 1 {
                    assert(cur[k] == rest[k - 1]);
                }
            }
        } else {
            assert(cur == rest);
        }
    }
}

pub proof fn lemma_weight_singleton(m: MoraModelView)
    ensures
        total_weight(seq![m]) == mora_weight(m),
{
    assert(seq![m].len() == 1);
    assert(seq![m][0] == m);
    assert(seq![m].drop_first() =~= Seq::<MoraModelView>::empty());
    assert(total_weight(Seq::<MoraModelView>::empty()) == 0);
}

/// Every term of `s`, moved `d` positions to the right.
pub open spec fn shift_all(s: Seq<int>, d: int) -> Seq<int> {
    Seq::new(s.len(), |k: int| s[k] + d)
}

proof fn lemma_vidx_tail(c: Seq<Seq<char>>, b: Seq<Seq<char>>, j: int)
    requires
        c.len() >= b.len(),
        c.len() - b.len() <= j <= c.len(),
        forall|x: int| 0 <= x < b.len() ==> c[c.len() - b.len() + x] == b[x],
    ensures
        vidx_from(c, j) == shift_all(vidx_from(b, j - (c.len() - b.len())), c.len() - b.len()),
    decreases c.len() - j,
{
    let d = c.len() - b.len();
    if j < c.len() {
        lemma_vidx_tail(c, b, j + 1);
        assert(c[j] == b[j - d]);
        if is_mora_symbol(c[j]) {
            assert(vidx_from(c, j) =~= shift_all(vidx_from(b, j - d), d));
        } else {
            assert(vidx_from(c, j) =~= shift_all(vidx_from(b, j - d), d));
        }
    } else {
        assert(vidx_from(c, j) =~= shift_all(vidx_from(b, j - d), d));
    }
}

pub proof fn lemma_vidx_append(a: Seq<Seq<char>>, b: Seq<Seq<char>>)
    ensures
        vidx_from(a + b, 0) == vidx_from(a, 0) + shift_all(vidx_from(b, 0), a.len() as int),
{
    lemma_vidx_append_from(a, b, 0);
}

proof fn lemma_vidx_append_from(a: Seq<Seq<char>>, b: Seq<Seq<char>>, i: int)
    requires
        0 <= i <= a.len(),
    ensures
        vidx_from(a + b, i) == vidx_from(a, i) + shift_all(vidx_from(b, 0), a.len() as int),
    decreases a.len() - i,
{
    let c = a + b;
    if i < a.len() {
        lemma_vidx_append_from(a, b, i + 1);
        assert(c[i] == a[i]);
        if is_mora_symbol(c[i]) {
            assert(vidx_from(c, i) =~= vidx_from(a, i) + shift_all(vidx_from(b, 0), a.len() as int));
        } else {
            assert(vidx_from(c, i) =~= vidx_from(a, i) + shift_all(vidx_from(b, 0), a.len() as int));
        }
    } else {
        assert forall|x: int| 0 <= x < b.len() implies c[c.len() - b.len() + x] == b[x] by {}
        lemma_vidx_tail(c, b, i);
        assert(vidx_from(c, i) =~= vidx_from(a, i) + shift_all(vidx_from(b, 0), a.len() as int));
    }
}

/// The moras a numeric stage can be aligned with: every vowel symbol
/// closes a mora, and no consonant symbol does.
pub open spec fn moras_wf(ms: Seq<MoraModelView>) -> bool {
    forall|i: int| 0 <= i < ms.len() ==> is_mora_symbol((#[trigger] ms[i]).vowel) && (ms[i].consonant
        is Some ==> !is_mora_symbol(ms[i].consonant->Some_0))
}

/// The accent phrases a numeric stage can be aligned with.
pub open spec fn phrases_wf(phrases: Seq<AccentPhraseModelView>) -> bool {
    moras_wf(spec_flatten_moras(phrases))
}

pub proof fn lemma_weight_split(ms: Seq<MoraModelView>, j: int)
    requires
        0 <= j <= ms.len(),
    ensures
        total_weight(ms) == total_weight(ms.take(j)) + total_weight(ms.skip(j)),
    decreases ms.len(),
{
    if ms.len() > 0 {
        if j == 0 {
            assert(ms.take(0) =~= Seq::<MoraModelView>::empty());
            assert(ms.skip(0) =~= ms);
        } else {
            lemma_weight_split(ms.drop_first(), j - 1);
            assert(ms.take(j).drop_first() =~= ms.drop_first().take(j - 1));
            assert(ms.skip(j) =~= ms.drop_first().skip(j - 1));
            assert(total_weight(ms.take(j)) == mora_weight(ms[0]) + total_weight(
                ms.drop_first().take(j - 1),
            ));
        }
    }
}

proof fn lemma_vidx_moras(ms: Seq<MoraModelView>)
    requires
        moras_wf(ms),
    ensures
        vidx_from(spec_mora_symbols(ms), 0).len() == ms.len(),
        forall|k: int| 0 <= k < ms.len() ==> #[trigger] vidx_from(spec_mora_symbols(ms), 0)[k]
            == total_weight(ms.take(k + 1)) - 1,
    decreases ms.len(),
{
    if ms.len() > 0 {
        let m0 = ms[0];
        let rest = ms.drop_first();
        let s0 = mora_symbols(m0);
        let srest = spec_mora_symbols(rest);
        assert(moras_wf(rest)) by {
            assert(forall|i: int| 0 <= i < rest.len() ==> rest[i] == ms[i + 1]);
        }
        lemma_vidx_moras(rest);
        lemma_vidx_append(s0, srest);
        let w0 = mora_weight(m0);
        assert(vidx_from(s0, 0) =~= seq![w0 - 1]) by {
            match m0.consonant {
                Some(c) => {
                    assert(s0.len() == 2);
                    assert(!is_mora_symbol(s0[0]));
                    assert(is_mora_symbol(s0[1]));
                    assert(vidx_from(s0, 2) =~= Seq::<int>::empty());
                    assert(vidx_from(s0, 1) =~= seq![1int]);
                    assert(vidx_from(s0, 0) =~= seq![1int]);
                },
                None => {
                    assert(s0.len() == 1);
                    assert(is_mora_symbol(s0[0]));
                    assert(vidx_from(s0, 1) =~= Seq::<int>::empty());
                    assert(vidx_from(s0, 0) =~= seq![0int]);
                },
            }
        }
        let vi = vidx_from(spec_mora_symbols(ms), 0);
        assert(vi == seq![w0 - 1] + shift_all(vidx_from(srest, 0), w0));
        assert(s0.len() == w0);
        assert forall|k: int| 0 <= k < ms.len() implies #[trigger] vi[k] == total_weight(
            ms.take(k + 1),
        ) - 1 by {
            if k == 0 {
                assert(ms.take(1) =~= seq![m0]);
                lemma_weight_singleton(m0);
            } else {
                assert(vi[k] == vidx_from(srest, 0)[k - 1] + w0);
                assert(vidx_from(srest, 0)[k - 1] == total_weight(rest.take(k)) - 1);
                assert(ms.take(k + 1).drop_first() =~= rest.take(k));
                assert(total_weight(ms.take(k + 1)) == w0 + total_weight(rest.take(k)));
            }
        }
    }
}

/// Where each mora's symbols sit in the flat mora-symbol sequence: the
/// vowel of mora `k` at the weighted prefix end, its consonant directly
/// before it.
proof fn lemma_mora_symbol_positions(ms: Seq<MoraModelView>)
    ensures
        forall|k: int| 0 <= k < ms.len() ==> #[trigger] spec_mora_symbols(ms)[total_weight(
            ms.take(k + 1),
        ) - 1] == ms[k].vowel,
        forall|k: int| 0 <= k < ms.len() && ms[k].consonant is Some ==> #[trigger] spec_mora_symbols(
            ms,
        )[total_weight(ms.take(k + 1)) - 2] == ms[k].consonant->Some_0,
    decreases ms.len(),
{
    if ms.len() > 0 {
        let m0 = ms[0];
        let rest = ms.drop_first();
        let s0 = mora_symbols(m0);
        let srest = spec_mora_symbols(rest);
        let w0 = mora_weight(m0);
        lemma_mora_symbol_positions(rest);
        lemma_mora_symbols_len(rest);
        assert(s0.len() == w0);
        assert forall|k: int| 0 <= k < ms.len() implies #[trigger] spec_mora_symbols(ms)[
        total_weight(ms.take(k + 1)) - 1] == ms[k].vowel by {
            if k == 0 {
                assert(ms.take(1) =~= seq![m0]);
                lemma_weight_singleton(m0);
                assert(spec_mora_symbols(ms)[w0 - 1] == s0[w0 - 1]);
            } else {
                assert(ms.take(k + 1).drop_first() =~= rest.take(k));
                assert(total_weight(ms.take(k + 1)) == w0 + total_weight(rest.take(k)));
                lemma_total_weight_bounds(rest.take(k));
                lemma_weight_split(rest, k);
                lemma_total_weight_bounds(rest.skip(k));
                assert(spec_mora_symbols(ms)[w0 + (total_weight(rest.take(k)) - 1)] == srest[
                total_weight(rest.take(k)) - 1]);
                assert(rest[k - 1] == ms[k]);
            }
        }
        assert forall|k: int|
            0 <= k < ms.len() && ms[k].consonant is Some implies #[trigger] spec_mora_symbols(ms)[
        total_weight(ms.take(k + 1)) - 2] == ms[k].consonant->Some_0 by {
            if k == 0 {
                assert(ms.take(1) =~= seq![m0]);
                lemma_weight_singleton(m0);
                assert(spec_mora_symbols(ms)[w0 - 2] == s0[w0 - 2]);
            } else {
                assert(ms.take(k + 1).drop_first() =~= rest.take(k));
                assert(total_weight(ms.take(k + 1)) == w0 + total_weight(rest.take(k)));
                lemma_total_weight_bounds(rest.take(k));
                assert(rest[k - 1] == ms[k]);
                assert(mora_weight(rest[k - 1]) == 2);
                assert(rest.take(k).drop_last() =~= rest.take(k - 1));
                assert(rest.take(k).last() == rest[k - 1]);
                lemma_weight_split(rest.take(k), k - 1);
                assert(rest.take(k).take(k - 1) =~= rest.take(k - 1));
                assert(rest.take(k).skip(k - 1) =~= seq![rest[k - 1]]);
                lemma_weight_singleton(rest[k - 1]);
                lemma_total_weight_bounds(rest.take(k - 1));
                assert(total_weight(rest.take(k)) - 2 >= 0);
                lemma_weight_split(rest, k);
                lemma_total_weight_bounds(rest.skip(k));
                assert(spec_mora_symbols(ms)[w0 + (total_weight(rest.take(k)) - 2)] == srest[
                total_weight(rest.take(k)) - 2]);
            }
        }
    }
}

/// The alignment between moras and the flat sequence: the vowel-index
/// table holds one entry per mora plus the two boundary pauses; entry
/// `k + 1` is the flat position of mora `k`'s vowel, with its consonant,
/// when it has one, directly before it.
pub proof fn lemma_vowel_alignment(phrases: Seq<AccentPhraseModelView>)
    requires
        phrases_wf(phrases),
    ensures
        spec_phoneme_data(phrases) == spec_flat_symbols(phrases),
        spec_phoneme_data(phrases).len() == 2 + total_weight(spec_flatten_moras(phrases)),
        spec_vowel_indexes(spec_phoneme_data(phrases)).len() == spec_flatten_moras(phrases).len()
            + 2,
        spec_vowel_indexes(spec_phoneme_data(phrases))[0] == 0,
        spec_vowel_indexes(spec_phoneme_data(phrases))[spec_flatten_moras(phrases).len() as int + 1]
            == spec_phoneme_data(phrases).len() - 1,
        forall|k: int| 0 <= k < spec_flatten_moras(phrases).len() ==> #[trigger] spec_vowel_indexes(
            spec_phoneme_data(phrases),
        )[k + 1] == total_weight(spec_flatten_moras(phrases).take(k + 1)),
        forall|k: int| 0 <= k < spec_flatten_moras(phrases).len() ==> 1 <= #[trigger] spec_vowel_indexes(
            spec_phoneme_data(phrases),
        )[k + 1] < spec_phoneme_data(phrases).len() - 1,
        forall|k: int| 0 <= k < spec_flatten_moras(phrases).len() ==> spec_phoneme_data(phrases)[
            #[trigger] spec_vowel_indexes(spec_phoneme_data(phrases))[k + 1]
        ] == spec_flatten_moras(phrases)[k].vowel,
        forall|k: int| 0 <= k < spec_flatten_moras(phrases).len() && (#[trigger] spec_flatten_moras(
            phrases,
        )[k]).consonant is Some ==> spec_phoneme_data(phrases)[spec_vowel_indexes(
            spec_phoneme_data(phrases),
        )[k + 1] - 1] == spec_flatten_moras(phrases)[k].consonant->Some_0,
{
    let ms = spec_flatten_moras(phrases);
    let syms = spec_mora_symbols(ms);
    let ps = spec_flat_symbols(phrases);
    lemma_convert_identity(phrases);
    lemma_mora_symbols_len(ms);
    lemma_vidx_moras(ms);
    lemma_mora_symbol_positions(ms);
    reveal_strlit("pau");

    let head = seq!["pau"@];
    let tailed = syms + head;
    lemma_vidx_append(syms, head);
    assert(vidx_from(head, 0) =~= seq![0int]) by {
        assert(is_mora_symbol(head[0]));
        assert(vidx_from(head, 1) =~= Seq::<int>::empty());
    }
    assert(vidx_from(tailed, 0) == vidx_from(syms, 0) + shift_all(seq![0int], syms.len() as int));
    assert(shift_all(seq![0int], syms.len() as int) =~= seq![syms.len() as int]);
    lemma_vidx_append(head, tailed);
    assert(ps =~= head + tailed);
    assert(vidx_from(ps, 0) == vidx_from(head, 0) + shift_all(vidx_from(tailed, 0), 1));
    let vi = spec_vowel_indexes(ps);
    assert(vi.len() == ms.len() + 2);
    assert(vi[0] == 0);
    assert(vi[ms.len() as int + 1] == shift_all(vidx_from(tailed, 0), 1)[ms.len() as int]);
    assert(vidx_from(tailed, 0)[ms.len() as int] == syms.len());
    assert(vi[ms.len() as int + 1] == ps.len() - 1);
    assert forall|k: int| 0 <= k < ms.len() implies #[trigger] vi[k + 1] == total_weight(
        ms.take(k + 1),
    ) by {
        assert(vi[k + 1] == shift_all(vidx_from(tailed, 0), 1)[k]);
        assert(vidx_from(tailed, 0)[k] == vidx_from(syms, 0)[k]);
        assert(vidx_from(syms, 0)[k] == total_weight(ms.take(k + 1)) - 1);
    }
    assert forall|k: int| 0 <= k < ms.len() implies 1 <= #[trigger] vi[k + 1] < ps.len() - 1 by {
        lemma_total_weight_bounds(ms.take(k + 1));
        lemma_weight_split(ms, k + 1);
        lemma_total_weight_bounds(ms.skip(k + 1));
        assert(ms.take(k + 1).len() == k + 1);
    }
    assert forall|k: int| 0 <= k < ms.len() implies ps[#[trigger] vi[k + 1]] == ms[k].vowel by {
        assert(vi[k + 1] == total_weight(ms.take(k + 1)));
        lemma_total_weight_bounds(ms.take(k + 1));
        assert(ps[vi[k + 1]] == syms[vi[k + 1] - 1]);
    }
    assert forall|k: int| 0 <= k < ms.len() && (#[trigger] ms[k]).consonant is Some implies ps[vi[k
        + 1] - 1] == ms[k].consonant->Some_0 by {
        assert(vi[k + 1] == total_weight(ms.take(k + 1)));
        lemma_total_weight_bounds(ms.take(k + 1));
        assert(ms.take(k + 1).last() == ms[k]);
        assert(ms.take(k + 1).drop_last() =~= ms.take(k));
        lemma_weight_split(ms.take(k + 1), k);
        assert(ms.take(k + 1).take(k) =~= ms.take(k));
        assert(ms.take(k + 1).skip(k) =~= seq![ms[k]]);
        lemma_weight_singleton(ms[k]);
        lemma_total_weight_bounds(ms.take(k));
        assert(vi[k + 1] - 2 >= 0);
        assert(ps[vi[k + 1] - 1] == syms[vi[k + 1] - 2]);
    }
}

/// The symbols at the vowel-index positions.
pub open spec fn spec_vowel_symbols(ps: Seq<Seq<char>>) -> Seq<Seq<char>> {
    Seq::new(spec_vowel_indexes(ps).len(), |k: int| ps[spec_vowel_indexes(ps)[k]])
}

/// The consonant symbol before each vowel-index position: empty when the
/// previous flat position is itself a vowel position, the symbol directly
/// before the vowel otherwise.  The first slot is always empty.
pub open spec fn spec_consonant_symbols(ps: Seq<Seq<char>>) -> Seq<Seq<char>> {
    Seq::new(
        spec_vowel_indexes(ps).len(),
        |k: int|
            if k == 0 || spec_vowel_indexes(ps)[k] - spec_vowel_indexes(ps)[k - 1] == 1 {
                Seq::<char>::empty()
            } else {
                ps[spec_vowel_indexes(ps)[k] - 1]
            },
    )
}

/// Splits a flat symbol sequence into the vowel-index table, the symbols
/// at those positions, and the consonant directly before each of them.
pub fn split_mora(phoneme_list: &Vec<OjtPhoneme>) -> (r: (Vec<OjtPhoneme>, Vec<OjtPhoneme>, Vec<i64>))
    requires
        phoneme_list@.len() < 0x8000_0000_0000_0000,
    ensures
        r.2@.len() == spec_vowel_indexes(phoneme_list.deep_view()).len(),
        forall|k: int| 0 <= k < r.2@.len() ==> r.2@[k] == spec_vowel_indexes(
            phoneme_list.deep_view(),
        )[k],
        r.1.deep_view() == spec_vowel_symbols(phoneme_list.deep_view()),
        r.0.deep_view() == spec_consonant_symbols(phoneme_list.deep_view()),
{
    let ghost ps = phoneme_list.deep_view();
    proof {
        lemma_vidx_bounds(ps, 0);
    }
    let n = phoneme_list.len();
    let mut vowel_indexes: Vec<i64> = Vec::new();
    let mut i: usize = 0;
    proof {
        assert(vowel_indexes@.map_values(|x: i64| x as int) =~= Seq::<int>::empty());
        assert(vowel_indexes@.map_values(|x: i64| x as int) + vidx_from(ps, 0) =~= vidx_from(
            ps,
            0,
        ));
    }
    while i < n
        invariant
            0 <= i <= n,
            n == ps.len(),
            n < 0x8000_0000_0000_0000,
            ps == phoneme_list.deep_view(),
            vowel_indexes@.map_values(|x: i64| x as int) + vidx_from(ps, i as int) =~= vidx_from(
                ps,
                0,
            ),
        decreases n - i,
    {
        let ghost old_map = vowel_indexes@.map_values(|x: i64| x as int);
        if symbol_is_mora(phoneme_list[i].phoneme.as_str()) {
            vowel_indexes.push(i as i64);
            proof {
                assert(phoneme_list@[i as int]@ == ps[i as int]);
                assert(vowel_indexes@.map_values(|x: i64| x as int) =~= old_map.push(i as int));
                assert(vidx_from(ps, i as int) == seq![i as int] + vidx_from(ps, i + 1));
                assert(vowel_indexes@.map_values(|x: i64| x as int) + vidx_from(ps, i + 1)
                    =~= vidx_from(ps, 0));
            }
        } else {
            proof {
                assert(phoneme_list@[i as int]@ == ps[i as int]);
                assert(vidx_from(ps, i as int) == vidx_from(ps, i + 1));
            }
        }
        i += 1;
    }
    proof {
        assert(vidx_from(ps, n as int) =~= Seq::<int>::empty());
        assert(vowel_indexes@.map_values(|x: i64| x as int) =~= vidx_from(ps, 0));
        assert(forall|k: int| 0 <= k < vowel_indexes@.len() ==> vowel_indexes@[k]
            == spec_vowel_indexes(ps)[k]);
    }

    let ghost vi = spec_vowel_indexes(ps);
    let nv = vowel_indexes.len();
    let mut vowel_list: Vec<OjtPhoneme> = Vec::new();
    let mut consonant_list: Vec<OjtPhoneme> = Vec::new();
    let mut k: usize = 0;
    while k < nv
        invariant
            0 <= k <= nv,
            n == ps.len(),
            ps == phoneme_list.deep_view(),
            phoneme_list@.len() == n,
            vi == spec_vowel_indexes(ps),
            nv == vi.len(),
            vowel_indexes@.len() == nv,
            forall|x: int| 0 <= x < nv ==> vowel_indexes@[x] == vi[x],
            forall|x: int| 0 <= x < nv ==> 0 <= #[trigger] vi[x] < n,
            forall|x1: int, x2: int| 0 <= x1 < x2 < nv ==> #[trigger] vi[x1] < #[trigger] vi[x2],
            vowel_list.deep_view().len() == k,
            forall|x: int| 0 <= x < k ==> vowel_list.deep_view()[x] == ps[#[trigger] vi[x]],
            consonant_list.deep_view().len() == k,
            forall|x: int| 0 <= x < k ==> consonant_list.deep_view()[x]
                == spec_consonant_symbols(ps)[x],
        decreases nv - k,
    {
        let idx = vowel_indexes[k] as usize;
        proof {
            assert(vowel_indexes@[k as int] == vi[k as int]);
        }
        let ghost old_v = vowel_list.deep_view();
        vowel_list.push(phoneme_list[idx].clone());
        proof {
            assert(phoneme_list@[idx as int]@ == ps[idx as int]);
            assert(vowel_list.deep_view().len() == old_v.len() + 1);
            assert(forall|x: int| 0 <= x < k ==> vowel_list.deep_view()[x] == old_v[x]);
        }
        let centry: OjtPhoneme = if k == 0 {
            OjtPhoneme { phoneme: String::new() }
        } else {
            let prev = vowel_indexes[k - 1] as usize;
            proof {
                assert(vowel_indexes@[k - 1] == vi[k - 1]);
                assert(vi[k - 1] < vi[k as int]);
            }
            if idx - prev == 1 {
                OjtPhoneme { phoneme: String::new() }
            } else {
                phoneme_list[idx - 1].clone()
            }
        };
        proof {
            assert(centry@ == spec_consonant_symbols(ps)[k as int]);
        }
        let ghost old_c = consonant_list.deep_view();
        consonant_list.push(centry);
        proof {
            assert(consonant_list.deep_view().len() == old_c.len() + 1);
            assert(forall|x: int| 0 <= x < k ==> consonant_list.deep_view()[x] == old_c[x]);
        }
        k += 1;
    }
    proof {
        assert(vowel_list.deep_view() =~= spec_vowel_symbols(ps));
        assert(consonant_list.deep_view() =~= spec_consonant_symbols(ps));
    }
    (consonant_list, vowel_list, vowel_indexes)
}

/// Whether mora `i` is the marked position of the phrase: the accent point
/// when `point` is not negative, the position counted from the phrase end
/// otherwise.
pub open spec fn one_accent_value(ap: AccentPhraseModelView, point: int, i: int) -> int {
    if i == point || (point < 0 && i == ap.moras.len() + point) {
        1
    } else {
        0
    }
}

/// The marker sequence of one phrase from mora `i` on: each mora emits its
/// marker value once per flat position it occupies, and the synthetic
/// pause mora emits one zero.
pub open spec fn oal_from(ap: AccentPhraseModelView, point: int, i: int) -> Seq<int>
    decreases ap.moras.len() - i when 0 <= i <= ap.moras.len()
{
    if i >= ap.moras.len() {
        match ap.pause_mora {
            Some(_) => seq![0int],
            None => Seq::<int>::empty(),
        }
    } else {
        let v = one_accent_value(ap, point, i);
        (if ap.moras[i].consonant is Some {
            seq![v, v]
        } else {
            seq![v]
        }) + oal_from(ap, point, i + 1)
    }
}

/// The per-position marker sequence of one phrase.
pub open spec fn spec_one_accent_list(ap: AccentPhraseModelView, point: int) -> Seq<int> {
    oal_from(ap, point, 0)
}

/// Builds the marker sequence of one phrase: one value per flat position,
/// marking the mora that `point` names.
pub fn create_one_accent_list(accent_phrase: &AccentPhraseModel, point: i32) -> (r: Vec<i64>)
    requires
        point > i32::MIN,
    ensures
        r@.len() == spec_one_accent_list(accent_phrase@, point as int).len(),
        forall|x: int| 0 <= x < r@.len() ==> r@[x] == spec_one_accent_list(
            accent_phrase@,
            point as int,
        )[x],
{
    let ghost ap = accent_phrase@;
    let nm = accent_phrase.moras.len();
    let mut r: Vec<i64> = Vec::new();
    let mut i: usize = 0;
    proof {
        assert(r@.map_values(|x: i64| x as int) =~= Seq::<int>::empty());
        assert(r@.map_values(|x: i64| x as int) + oal_from(ap, point as int, 0) =~= oal_from(
            ap,
            point as int,
            0,
        ));
    }
    while i < nm
        invariant
            0 <= i <= nm,
            nm == ap.moras.len(),
            accent_phrase@ == ap,
            r@.map_values(|x: i64| x as int) + oal_from(ap, point as int, i as int) =~= oal_from(
                ap,
                point as int,
                0,
            ),
            point > i32::MIN,
        decreases nm - i,
    {
        let hit: bool = if point >= 0 {
            i == (point as usize)
        } else {
            let neg = (-point) as usize;
            nm >= neg && i == nm - neg
        };
        proof {
            assert(hit == (one_accent_value(ap, point as int, i as int) == 1));
        }
        let v: i64 = if hit {
            1
        } else {
            0
        };
        let ghost old_map = r@.map_values(|x: i64| x as int);
        let ghost sv = one_accent_value(ap, point as int, i as int);
        match &accent_phrase.moras[i].consonant {
            Some(_) => {
                r.push(v);
                r.push(v);
                proof {
                    assert(accent_phrase.moras@[i as int]@ == ap.moras[i as int]);
                    assert(r@.map_values(|x: i64| x as int) =~= old_map + seq![sv, sv]);
                }
            },
            None => {
                r.push(v);
                proof {
                    assert(accent_phrase.moras@[i as int]@ == ap.moras[i as int]);
                    assert(r@.map_values(|x: i64| x as int) =~= old_map + seq![sv]);
                }
            },
        }
        proof {
            assert(r@.map_values(|x: i64| x as int) + oal_from(ap, point as int, i + 1)
                =~= oal_from(ap, point as int, 0));
        }
        i += 1;
    }
    let ghost old_map = r@.map_values(|x: i64| x as int);
    match &accent_phrase.pause_mora {
        Some(_) => {
            r.push(0);
            proof {
                assert(r@.map_values(|x: i64| x as int) =~= old_map + seq![0int]);
            }
        },
        None => {},
    }
    proof {
        assert(r@.map_values(|x: i64| x as int) =~= oal_from(ap, point as int, 0));
        assert(forall|x: int| 0 <= x < r@.len() ==> r@[x] == spec_one_accent_list(
            ap,
            point as int,
        )[x]);
    }
    r
}

/// How many flat moras one phrase contributes, its pause mora included.
pub open spec fn mora_count(ap: AccentPhraseModelView) -> int {
    ap.moras.len() + if ap.pause_mora is Some {
        1int
    } else {
        0int
    }
}

/// The flat mora position where phrase `p` begins.
pub open spec fn offset_of(phrases: Seq<AccentPhraseModelView>, p: int) -> int
    decreases p when p >= 0
{
    if p <= 0 {
        0
    } else {
        offset_of(phrases, p - 1) + mora_count(phrases[p - 1])
    }
}

proof fn lemma_offset_shift(phrases: Seq<AccentPhraseModelView>, p: int)
    requires
        phrases.len() > 0,
        1 <= p <= phrases.len(),
    ensures
        offset_of(phrases, p) == mora_count(phrases[0]) + offset_of(phrases.drop_first(), p - 1),
    decreases p,
{
    if p > 1 {
        lemma_offset_shift(phrases, p - 1);
        assert(phrases.drop_first()[p - 2] == phrases[p - 1]);
        assert(offset_of(phrases, p) == offset_of(phrases, p - 1) + mora_count(phrases[p - 1]));
        assert(offset_of(phrases.drop_first(), p - 1) == offset_of(phrases.drop_first(), p - 2)
            + mora_count(phrases.drop_first()[p - 2]));
    } else {
        assert(offset_of(phrases, 1) == offset_of(phrases, 0) + mora_count(phrases[0]));
        assert(offset_of(phrases, 0) == 0);
        assert(offset_of(phrases.drop_first(), 0) == 0);
    }
}

/// Where each phrase's moras sit in the flat mora sequence: phrase `p`
/// occupies the positions from its offset on, its moras first, its pause
/// mora last.
pub proof fn lemma_flatten_offsets(phrases: Seq<AccentPhraseModelView>, p: int)
    requires
        0 <= p < phrases.len(),
    ensures
        0 <= offset_of(phrases, p),
        offset_of(phrases, p) + mora_count(phrases[p]) <= spec_flatten_moras(phrases).len(),
        forall|k: int| 0 <= k < phrases[p].moras.len() ==> spec_flatten_moras(phrases)[offset_of(
            phrases,
            p,
        ) + k] == phrases[p].moras[k],
        phrases[p].pause_mora is Some ==> spec_flatten_moras(phrases)[offset_of(phrases, p)
            + phrases[p].moras.len()] == phrases[p].pause_mora->Some_0,
    decreases p,
{
    let ms = spec_flatten_moras(phrases);
    let rest = phrases.drop_first();
    if p == 0 {
        assert(ms == phrase_moras(phrases[0]) + spec_flatten_moras(rest));
        assert(forall|k: int| 0 <= k < phrases[0].moras.len() ==> phrase_moras(phrases[0])[k]
            == phrases[0].moras[k]);
        assert(offset_of(phrases, 0) == 0);
    } else {
        lemma_flatten_offsets(rest, p - 1);
        lemma_offset_shift(phrases, p);
        assert(rest[p - 1] == phrases[p]);
        let c0 = mora_count(phrases[0]);
        assert(phrase_moras(phrases[0]).len() == c0);
        assert(ms == phrase_moras(phrases[0]) + spec_flatten_moras(rest));
        assert forall|k: int| 0 <= k < phrases[p].moras.len() implies ms[offset_of(phrases, p)
            + k] == phrases[p].moras[k] by {
            assert(spec_flatten_moras(rest)[offset_of(rest, p - 1) + k] == rest[p - 1].moras[k]);
            assert(ms[c0 + (offset_of(rest, p - 1) + k)] == spec_flatten_moras(rest)[offset_of(
                rest,
                p - 1,
            ) + k]);
        }
        if phrases[p].pause_mora is Some {
            assert(spec_flatten_moras(rest)[offset_of(rest, p - 1) + rest[p - 1].moras.len()]
                == rest[p - 1].pause_mora->Some_0);
            assert(ms[c0 + (offset_of(rest, p - 1) + rest[p - 1].moras.len())]
                == spec_flatten_moras(rest)[offset_of(rest, p - 1) + rest[p - 1].moras.len()]);
        }
    }
}

/// The offsets exhaust the flat sequence: past the last phrase the offset
/// is its length.
pub proof fn lemma_offset_total(phrases: Seq<AccentPhraseModelView>)
    ensures
        offset_of(phrases, phrases.len() as int) == spec_flatten_moras(phrases).len(),
    decreases phrases.len(),
{
    if phrases.len() > 0 {
        lemma_offset_total(phrases.drop_first());
        lemma_offset_shift(phrases, phrases.len() as int);
    }
}

/// Checks [`phrases_wf`] on accent-phrase models.
pub fn check_phrases_wf(accent_phrases: &Vec<AccentPhraseModel>) -> (b: bool)
    ensures
        b == phrases_wf(accent_phrases.deep_view()),
{
    let ghost dv = accent_phrases.deep_view();
    let ghost ms = spec_flatten_moras(dv);
    let (flat, _symbols) = initial_process(accent_phrases);
    let n = flat.len();
    let mut k: usize = 0;
    while k < n
        invariant
            0 <= k <= n,
            n == ms.len(),
            dv == accent_phrases.deep_view(),
            ms == spec_flatten_moras(dv),
            flat.deep_view() == ms,
            forall|x: int| 0 <= x < k ==> is_mora_symbol((#[trigger] ms[x]).vowel) && (
            ms[x].consonant is Some ==> !is_mora_symbol(ms[x].consonant->Some_0)),
        decreases n - k,
    {
        proof {
            assert(flat@[k as int]@ == ms[k as int]);
        }
        if !symbol_is_mora(flat[k].vowel.as_str()) {
            proof {
                assert(!moras_wf(ms));
            }
            return false;
        }
        match &flat[k].consonant {
            Some(c) => {
                if symbol_is_mora(c.as_str()) {
                    proof {
                        assert(is_mora_symbol(ms[k as int].consonant->Some_0));
                        assert(!moras_wf(ms));
                    }
                    return false;
                }
            },
            None => {},
        }
        k += 1;
    }
    true
}

} // verus!
