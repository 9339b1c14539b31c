use vstd::prelude::*;

use crate::align::create_one_accent_list;
use crate::align::initial_process;
use crate::align::is_unvoiced_symbol;
use crate::align::lemma_flatten_offsets;
use crate::align::lemma_vowel_alignment;
use crate::align::mora_count;
use crate::align::mora_weight;
use crate::align::offset_of;
use crate::align::phrase_moras;
use crate::align::phrases_wf;
use crate::align::spec_flatten_moras;
use crate::align::spec_one_accent_list;
use crate::align::spec_phoneme_data;
use crate::align::spec_vowel_indexes;
use crate::align::spec_vowel_symbols;
use crate::align::split_mora;
use crate::align::symbol_is_unvoiced;
use crate::align::total_weight;
use crate::model::AccentPhraseModel;
use crate::model::AccentPhraseModelView;
use crate::model::MoraModel;
use crate::model::MoraModelView;
use crate::scalar::scalar_zero;
use crate::scalar::Scalar;

verus! {

// The pitch stage: the pitch service receives one row per vowel slot (the
// vowel's code, the code of the consonant before it, and four accent
// boundary markers resampled to vowel slots) and returns one pitch per
// slot.  A slot whose vowel is silent by nature is forced to pitch zero
// whatever the service said, and the pitches are scattered back onto the
// moras in flat order.

/// Which marker sequence is being built.
pub enum AccentMark {
    /// Marks the mora where the accent rise starts: the second mora when
    /// the accent is not initial, the first otherwise.
    StartAccent,
    /// Marks the mora directly before the accented one.
    EndAccent,
    /// Marks the first mora of every phrase.
    StartPhrase,
    /// Marks the last mora of every phrase.
    EndPhrase,
}

/// The marked mora position of one phrase for a marker kind.
pub open spec fn point_of(kind: AccentMark, ap: AccentPhraseModelView) -> int {
    match kind {
        AccentMark::StartAccent => if ap.accent != 1 {
            1
        } else {
            0
        },
        AccentMark::EndAccent => ap.accent - 1,
        AccentMark::StartPhrase => 0,
        AccentMark::EndPhrase => -1,
    }
}

/// The per-position marker sequence of the phrases from `p` on, closed by
/// the trailing boundary zero.
pub open spec fn base_from(phrases: Seq<AccentPhraseModelView>, kind: AccentMark, p: int) -> Seq<
    int,
>
    decreases phrases.len() - p when 0 <= p <= phrases.len()
{
    if p >= phrases.len() {
        seq![0int]
    } else {
        spec_one_accent_list(phrases[p], point_of(kind, phrases[p])) + base_from(
            phrases,
            kind,
            p + 1,
        )
    }
}

/// The whole-utterance marker sequence: a zero for each boundary pause and
/// one value per flat position in between.
pub open spec fn spec_base_list(phrases: Seq<AccentPhraseModelView>, kind: AccentMark) -> Seq<
    int,
> {
    seq![0int] + base_from(phrases, kind, 0)
}

/// The marker sequence resampled to vowel slots.
pub open spec fn spec_resampled_list(phrases: Seq<AccentPhraseModelView>, kind: AccentMark) -> Seq<
    int,
> {
    let ps = spec_phoneme_data(phrases);
    let vi = spec_vowel_indexes(ps);
    Seq::new(vi.len(), |k: int| spec_base_list(phrases, kind)[vi[k]])
}

/// No synthetic pause mora carries a consonant.
pub open spec fn pause_moras_bare(phrases: Seq<AccentPhraseModelView>) -> bool {
    forall|p: int| 0 <= p < phrases.len() && (#[trigger] phrases[p]).pause_mora is Some ==> phrases[p].pause_mora->Some_0.consonant is None
}

proof fn lemma_oal_len(ap: AccentPhraseModelView, pt: int, i: int)
    requires
        0 <= i <= ap.moras.len(),
    ensures
        crate::align::oal_from(ap, pt, i).len() == total_weight(ap.moras.skip(i)) + if ap.pause_mora is Some {
            1int
        } else {
            0int
        },
    decreases ap.moras.len() - i,
{
    if i < ap.moras.len() {
        lemma_oal_len(ap, pt, i + 1);
        assert(ap.moras.skip(i)[0] == ap.moras[i]);
        assert(ap.moras.skip(i).drop_first() =~= ap.moras.skip(i + 1));
        assert(total_weight(ap.moras.skip(i)) == mora_weight(ap.moras[i]) + total_weight(
            ap.moras.skip(i + 1),
        ));
    } else {
        assert(ap.moras.skip(i) =~= Seq::<MoraModelView>::empty());
    }
}

proof fn lemma_weight_concat(a: Seq<MoraModelView>, b: Seq<MoraModelView>)
    ensures
        total_weight(a + b) == total_weight(a) + total_weight(b),
    decreases a.len(),
{
    if a.len() == 0 {
        assert(a + b =~= b);
    } else {
        lemma_weight_concat(a.drop_first(), b);
        assert((a + b).drop_first() =~= a.drop_first() + b);
        assert((a + b)[0] == a[0]);
    }
}

proof fn lemma_base_from_len(phrases: Seq<AccentPhraseModelView>, kind: AccentMark, p: int)
    requires
        0 <= p <= phrases.len(),
        pause_moras_bare(phrases),
    ensures
        base_from(phrases, kind, p).len() == 1 + total_weight(
            spec_flatten_moras(phrases.skip(p)),
        ),
    decreases phrases.len() - p,
{
    if p < phrases.len() {
        lemma_base_from_len(phrases, kind, p + 1);
        lemma_oal_len(phrases[p], point_of(kind, phrases[p]), 0);
        assert(phrases[p].moras.skip(0) =~= phrases[p].moras);
        assert(phrases.skip(p)[0] == phrases[p]);
        assert(phrases.skip(p).drop_first() =~= phrases.skip(p + 1));
        assert(spec_flatten_moras(phrases.skip(p)) == phrase_moras(phrases[p])
            + spec_flatten_moras(phrases.skip(p + 1)));
        lemma_weight_concat(phrase_moras(phrases[p]), spec_flatten_moras(phrases.skip(p + 1)));
        match phrases[p].pause_mora {
            Some(pm) => {
                assert(pm.consonant is None);
                assert(phrase_moras(phrases[p]) =~= phrases[p].moras + seq![pm]);
                lemma_weight_concat(phrases[p].moras, seq![pm]);
                crate::align::lemma_weight_singleton(pm);
            },
            None => {
                assert(phrase_moras(phrases[p]) =~= phrases[p].moras
                    + Seq::<MoraModelView>::empty());
                lemma_weight_concat(phrases[p].moras, Seq::<MoraModelView>::empty());
            },
        }
    } else {
        assert(phrases.skip(p) =~= Seq::<AccentPhraseModelView>::empty());
    }
}

/// The marker sequence covers every flat position: its length equals the
/// flat symbol sequence's.
pub proof fn lemma_base_list_len(phrases: Seq<AccentPhraseModelView>, kind: AccentMark)
    requires
        pause_moras_bare(phrases),
    ensures
        spec_base_list(phrases, kind).len() == spec_phoneme_data(phrases).len(),
    decreases phrases.len(),
{
    lemma_base_from_len(phrases, kind, 0);
    assert(phrases.skip(0) =~= phrases);
    crate::align::lemma_flat_symbol_count(phrases);
}

/// Builds one whole-utterance marker sequence.
pub fn base_accent_list(accent_phrases: &Vec<AccentPhraseModel>, kind: &AccentMark) -> (r: Vec<
    i64,
>)
    requires
        forall|p: int| 0 <= p < accent_phrases.deep_view().len() ==> (#[trigger] accent_phrases.deep_view()[p]).accent <= 0x7fff_ffff,
    ensures
        r@.len() == spec_base_list(accent_phrases.deep_view(), *kind).len(),
        forall|x: int| 0 <= x < r@.len() ==> r@[x] == spec_base_list(
            accent_phrases.deep_view(),
            *kind,
        )[x],
{
    let ghost dv = accent_phrases.deep_view();
    let n = accent_phrases.len();
    let mut r: Vec<i64> = Vec::new();
    r.push(0);
    let mut p: usize = 0;
    proof {
        assert(r@.map_values(|x: i64| x as int) =~= seq![0int]);
        assert(r@.map_values(|x: i64| x as int) + base_from(dv, *kind, 0) =~= spec_base_list(
            dv,
            *kind,
        ));
    }
    while p < n
        invariant
            0 <= p <= n,
            n == dv.len(),
            dv == accent_phrases.deep_view(),
            forall|q: int| 0 <= q < dv.len() ==> (#[trigger] dv[q]).accent <= 0x7fff_ffff,
            r@.map_values(|x: i64| x as int) + base_from(dv, *kind, p as int) =~= spec_base_list(
                dv,
                *kind,
            ),
        decreases n - p,
    {
        let phrase = &accent_phrases[p];
        proof {
            assert(phrase@ == dv[p as int]);
        }
        let point: i32 = match kind {
            AccentMark::StartAccent => if phrase.accent != 1 {
                1
            } else {
                0
            },
            AccentMark::EndAccent => (phrase.accent as i32) - 1,
            AccentMark::StartPhrase => 0,
            AccentMark::EndPhrase => -1,
        };
        proof {
            assert(point as int == point_of(*kind, dv[p as int]));
        }
        let one = create_one_accent_list(phrase, point);
        let ghost old_map = r@.map_values(|x: i64| x as int);
        let mut j: usize = 0;
        let nj = one.len();
        while j < nj
            invariant
                0 <= j <= nj,
                nj == one@.len(),
                one@.len() == spec_one_accent_list(dv[p as int], point as int).len(),
                forall|x: int| 0 <= x < one@.len() ==> one@[x] == spec_one_accent_list(
                    dv[p as int],
                    point as int,
                )[x],
                r@.map_values(|x: i64| x as int) =~= old_map + spec_one_accent_list(
                    dv[p as int],
                    point as int,
                ).take(j as int),
            decreases nj - j,
        {
            let ghost before = r@.map_values(|x: i64| x as int);
            r.push(one[j]);
            proof {
                assert(r@.map_values(|x: i64| x as int) =~= before.push(one@[j as int] as int));
                assert(one@[j as int] as int == spec_one_accent_list(
                    dv[p as int],
                    point as int,
                )[j as int]);
                assert(r@.map_values(|x: i64| x as int) =~= old_map + spec_one_accent_list(
                    dv[p as int],
                    point as int,
                ).take(j + 1));
            }
            j += 1;
        }
        proof {
            assert(spec_one_accent_list(dv[p as int], point as int).take(nj as int)
                =~= spec_one_accent_list(dv[p as int], point_of(*kind, dv[p as int])));
            assert(base_from(dv, *kind, p as int) == spec_one_accent_list(
                dv[p as int],
                point_of(*kind, dv[p as int]),
            ) + base_from(dv, *kind, p + 1));
            assert(r@.map_values(|x: i64| x as int) + base_from(dv, *kind, p + 1)
                =~= spec_base_list(dv, *kind));
        }
        p += 1;
    }
    let ghost before = r@.map_values(|x: i64| x as int);
    r.push(0);
    proof {
        assert(r@.map_values(|x: i64| x as int) =~= before.push(0int));
        assert(base_from(dv, *kind, n as int) == seq![0int]);
        assert(before + seq![0int] =~= spec_base_list(dv, *kind));
        assert(r@.map_values(|x: i64| x as int) =~= spec_base_list(dv, *kind));
        assert(forall|x: int| 0 <= x < r@.len() ==> r@[x] == spec_base_list(dv, *kind)[x]);
    }
    r
}

/// Resamples a whole-utterance marker sequence to vowel slots.
fn resample_to_vowels(base: &Vec<i64>, vowel_indexes: &Vec<i64>, Ghost(phrases): Ghost<Seq<AccentPhraseModelView>>, Ghost(kind): Ghost<AccentMark>) -> (r: Vec<i64>)
    requires
        phrases_wf(phrases),
        base@.len() == spec_base_list(phrases, kind).len(),
        forall|x: int| 0 <= x < base@.len() ==> base@[x] == spec_base_list(phrases, kind)[x],
        base@.len() == spec_phoneme_data(phrases).len(),
        vowel_indexes@.len() == spec_vowel_indexes(spec_phoneme_data(phrases)).len(),
        forall|x: int| 0 <= x < vowel_indexes@.len() ==> vowel_indexes@[x] == spec_vowel_indexes(
            spec_phoneme_data(phrases),
        )[x],
    ensures
        r@.len() == spec_resampled_list(phrases, kind).len(),
        forall|x: int| 0 <= x < r@.len() ==> r@[x] == spec_resampled_list(phrases, kind)[x],
{
    let ghost ps = spec_phoneme_data(phrases);
    let ghost vi = spec_vowel_indexes(ps);
    proof {
        crate::align::lemma_vidx_bounds(ps, 0);
    }
    let nv = vowel_indexes.len();
    let blen = base.len();
    let mut r: Vec<i64> = Vec::new();
    let mut k: usize = 0;
    while k < nv
        invariant
            0 <= k <= nv,
            nv == vi.len(),
            blen == base@.len(),
            base@.len() == ps.len(),
            ps == spec_phoneme_data(phrases),
            vi == spec_vowel_indexes(ps),
            vowel_indexes@.len() == vi.len(),
            forall|x: int| 0 <= x < vi.len() ==> vowel_indexes@[x] == vi[x],
            forall|x: int| 0 <= x < vi.len() ==> 0 <= #[trigger] vi[x] < ps.len(),
            forall|x: int| 0 <= x < base@.len() ==> base@[x] == spec_base_list(phrases, kind)[x],
            r@.len() == k,
            forall|x: int| 0 <= x < k ==> r@[x] == spec_resampled_list(phrases, kind)[x],
        decreases nv - k,
    {
        proof {
            assert(vowel_indexes@[k as int] == vi[k as int]);
            assert(0 <= vi[k as int] < ps.len());
        }
        let idx = vowel_indexes[k] as usize;
        let ghost old_r = r@;
        r.push(base[idx]);
        proof {
            assert(r@.len() == old_r.len() + 1);
            assert(forall|x: int| 0 <= x < k ==> r@[x] == old_r[x]);
            assert(r@[k as int] == base@[idx as int]);
            assert(base@[idx as int] == spec_base_list(phrases, kind)[vi[k as int]]);
            assert(r@[k as int] == spec_resampled_list(phrases, kind)[k as int]);
        }
        k += 1;
    }
    r
}

/// One mora with its pitch rewritten: slots whose vowel is silent by
/// nature are forced to zero, every other slot takes the service's value
/// for flat mora position `g`.
pub open spec fn spec_pitched_mora(m: MoraModelView, f0: Seq<Scalar>, g: int) -> MoraModelView {
    MoraModelView {
        pitch: if is_unvoiced_symbol(m.vowel) {
            scalar_zero()
        } else {
            f0[g + 1]
        },
        ..m
    }
}

/// One phrase with every pitch rewritten.
pub open spec fn spec_pitched_phrase(ap: AccentPhraseModelView, f0: Seq<Scalar>, off: int) -> AccentPhraseModelView {
    AccentPhraseModelView {
        moras: Seq::new(ap.moras.len(), |k: int| spec_pitched_mora(ap.moras[k], f0, off + k)),
        accent: ap.accent,
        pause_mora: match ap.pause_mora {
            Some(pm) => Some(spec_pitched_mora(pm, f0, off + ap.moras.len())),
            None => None,
        },
        is_interrogative: ap.is_interrogative,
    }
}

/// What the pitch stage returns: every pitch rewritten from the service
/// output with the unvoiced slots forced to zero, everything else
/// unchanged.
pub open spec fn spec_replace_mora_pitch(
    phrases: Seq<AccentPhraseModelView>,
    f0: Seq<Scalar>,
) -> Seq<AccentPhraseModelView> {
    Seq::new(
        phrases.len(),
        |p: int| spec_pitched_phrase(phrases[p], f0, offset_of(phrases, p)),
    )
}

/// Scatters the pitch service's per-slot values back onto the moras,
/// forcing slots whose vowel is silent by nature to pitch zero.
pub fn replace_mora_pitch(accent_phrases: &Vec<AccentPhraseModel>, f0_list: &Vec<Scalar>) -> (r:
    Vec<AccentPhraseModel>)
    requires
        phrases_wf(accent_phrases.deep_view()),
        f0_list@.len() == spec_flatten_moras(accent_phrases.deep_view()).len() + 2,
    ensures
        r.deep_view() == spec_replace_mora_pitch(accent_phrases.deep_view(), f0_list@),
{
    let ghost dv = accent_phrases.deep_view();
    let ghost ms = spec_flatten_moras(dv);
    proof {
        lemma_vowel_alignment(dv);
    }
    let n = accent_phrases.len();
    let nf = f0_list.len();
    let mut out: Vec<AccentPhraseModel> = Vec::new();
    let mut index: usize = 0;
    let mut p: usize = 0;
    while p < n
        invariant
            0 <= p <= n,
            n == dv.len(),
            dv == accent_phrases.deep_view(),
            ms == spec_flatten_moras(dv),
            nf == f0_list@.len(),
            f0_list@.len() == ms.len() + 2,
            index == offset_of(dv, p as int),
            0 <= index,
            out.deep_view().len() == p,
            forall|q: int| 0 <= q < p ==> out.deep_view()[q] == spec_pitched_phrase(
                dv[q],
                f0_list@,
                offset_of(dv, q),
            ),
        decreases n - p,
    {
        proof {
            lemma_flatten_offsets(dv, p as int);
        }
        let ghost ap = dv[p as int];
        let ghost off = offset_of(dv, p as int);
        let phrase = &accent_phrases[p];
        proof {
            assert(phrase@ == ap);
        }
        let nm = phrase.moras.len();
        let mut moras: Vec<MoraModel> = Vec::new();
        let mut k: usize = 0;
        while k < nm
            invariant
                0 <= k <= nm,
                0 <= p < n,
                n == dv.len(),
                dv == accent_phrases.deep_view(),
                ap == dv[p as int],
                accent_phrases@[p as int]@ == ap,
                nm == ap.moras.len(),
                ms == spec_flatten_moras(dv),
                nf == f0_list@.len(),
                f0_list@.len() == ms.len() + 2,
                off == offset_of(dv, p as int),
                0 <= off,
                off + mora_count(ap) <= ms.len(),
                index == off + k,
                moras.deep_view().len() == k,
                forall|x: int| 0 <= x < k ==> moras.deep_view()[x] == spec_pitched_mora(
                    ap.moras[x],
                    f0_list@,
                    off + x,
                ),
            decreases nm - k,
        {
            let ghost g = off + k;
            let m = &accent_phrases[p].moras[k];
            proof {
                assert(accent_phrases@[p as int].moras@[k as int]@ == ap.moras[k as int]);
                assert(index + 1 < nf);
            }
            let pitch: Scalar = if symbol_is_unvoiced(m.vowel.as_str()) {
                Scalar::zero()
            } else {
                f0_list[index + 1]
            };
            let new_mora = MoraModel {
                text: m.text.clone(),
                consonant: match &m.consonant {
                    Some(c) => Some(c.clone()),
                    None => None,
                },
                consonant_length: m.consonant_length,
                vowel: m.vowel.clone(),
                vowel_length: m.vowel_length,
                pitch,
            };
            proof {
                assert(new_mora@ =~= spec_pitched_mora(ap.moras[k as int], f0_list@, g));
            }
            let ghost nmv = new_mora@;
            let ghost old_dv = moras.deep_view();
            moras.push(new_mora);
            proof {
                assert(moras.deep_view().len() == old_dv.len() + 1);
                assert(forall|x: int| 0 <= x < k ==> moras.deep_view()[x] == old_dv[x]);
                assert(moras.deep_view()[k as int] == nmv);
                assert forall|x: int| 0 <= x < k + 1 implies moras.deep_view()[x]
                    == spec_pitched_mora(ap.moras[x], f0_list@, off + x) by {
                    if x < k {
                        assert(moras.deep_view()[x] == old_dv[x]);
                    } else {
                        assert(moras.deep_view()[x] == nmv);
                    }
                }
            }
            index += 1;
            k += 1;
        }
        let pause_mora: Option<MoraModel> = match &accent_phrases[p].pause_mora {
            Some(pm) => {
                proof {
                    assert(accent_phrases@[p as int]@ == ap);
                    assert(ap.pause_mora is Some);
                    assert(index + 1 < nf);
                }
                let pitch: Scalar = if symbol_is_unvoiced(pm.vowel.as_str()) {
                    Scalar::zero()
                } else {
                    f0_list[index + 1]
                };
                let new_pause = MoraModel {
                    text: pm.text.clone(),
                    consonant: match &pm.consonant {
                        Some(c) => Some(c.clone()),
                        None => None,
                    },
                    consonant_length: pm.consonant_length,
                    vowel: pm.vowel.clone(),
                    vowel_length: pm.vowel_length,
                    pitch,
                };
                proof {
                    assert(accent_phrases@[p as int].pause_mora->Some_0@ == ap.pause_mora->Some_0);
                    assert(new_pause@ =~= spec_pitched_mora(
                        ap.pause_mora->Some_0,
                        f0_list@,
                        off + nm,
                    ));
                }
                index += 1;
                Some(new_pause)
            },
            None => None,
        };
        let new_phrase = AccentPhraseModel {
            moras,
            accent: phrase.accent,
            pause_mora,
            is_interrogative: phrase.is_interrogative,
        };
        proof {
            assert(moras.deep_view() =~= Seq::new(
                ap.moras.len(),
                |k: int| spec_pitched_mora(ap.moras[k], f0_list@, off + k),
            ));
            assert(new_phrase@ =~= spec_pitched_phrase(ap, f0_list@, off));
        }
        let ghost npv = new_phrase@;
        let ghost old_out = out.deep_view();
        out.push(new_phrase);
        proof {
            assert(out.deep_view().len() == old_out.len() + 1);
            assert(out.deep_view()[p as int] == npv);
            assert(crate::align::offset_of(dv, p + 1) == offset_of(dv, p as int) + mora_count(
                dv[p as int],
            ));
            assert forall|q: int| 0 <= q < p + 1 implies out.deep_view()[q] == spec_pitched_phrase(
                dv[q],
                f0_list@,
                offset_of(dv, q),
            ) by {
                if q < p {
                    assert(out.deep_view()[q] == old_out[q]);
                } else {
                    assert(out.deep_view()[q] == npv);
                }
            }
        }
        p += 1;
    }
    proof {
        assert(out.deep_view() =~= spec_replace_mora_pitch(dv, f0_list@));
    }
    out
}

/// Every vowel slot whose symbol is silent by nature carries pitch exactly
/// zero after the pitch stage, whatever the service returned.
pub proof fn lemma_unvoiced_pitch_zero(phrases: Seq<AccentPhraseModelView>, f0: Seq<Scalar>)
    ensures
        forall|p: int, k: int|
            0 <= p < phrases.len() && 0 <= k < phrases[p].moras.len() && is_unvoiced_symbol(
                phrases[p].moras[k].vowel,
            ) ==> (#[trigger] spec_replace_mora_pitch(phrases, f0)[p].moras[k]).pitch
                == scalar_zero(),
        forall|p: int|
            0 <= p < phrases.len() && (#[trigger] phrases[p]).pause_mora is Some
                && is_unvoiced_symbol(phrases[p].pause_mora->Some_0.vowel)
                ==> spec_replace_mora_pitch(phrases, f0)[p].pause_mora->Some_0.pitch
                == scalar_zero(),
{
}

/// The id sequence of the vowel-slot symbols.
pub open spec fn spec_vowel_ids(phrases: Seq<AccentPhraseModelView>) -> Seq<int> {
    let vs = spec_vowel_symbols(spec_phoneme_data(phrases));
    Seq::new(vs.len(), |k: int| crate::ojt_phoneme::spec_phoneme_id(vs[k]))
}

/// The id sequence of the consonants before each vowel slot.
pub open spec fn spec_consonant_ids(phrases: Seq<AccentPhraseModelView>) -> Seq<int> {
    let cs = crate::align::spec_consonant_symbols(spec_phoneme_data(phrases));
    Seq::new(cs.len(), |k: int| crate::ojt_phoneme::spec_phoneme_id(cs[k]))
}

/// Everything the pitch service consumes, in slot order: vowel ids,
/// consonant ids, and the four boundary marker sequences resampled to
/// vowel slots.
pub struct PitchRequest {
    pub vowel_ids: Vec<i64>,
    pub consonant_ids: Vec<i64>,
    pub start_accent: Vec<i64>,
    pub end_accent: Vec<i64>,
    pub start_accent_phrase: Vec<i64>,
    pub end_accent_phrase: Vec<i64>,
}

/// Derives the pitch service's inputs from the accent-phrase models.
pub fn intonation_inputs(accent_phrases: &Vec<AccentPhraseModel>) -> (r: PitchRequest)
    requires
        phrases_wf(accent_phrases.deep_view()),
        pause_moras_bare(accent_phrases.deep_view()),
        forall|p: int| 0 <= p < accent_phrases.deep_view().len() ==> (
        #[trigger] accent_phrases.deep_view()[p]).accent <= 0x7fff_ffff,
        spec_phoneme_data(accent_phrases.deep_view()).len() < 0x8000_0000_0000_0000,
    ensures
        r.vowel_ids@.len() == spec_vowel_ids(accent_phrases.deep_view()).len(),
        forall|x: int| 0 <= x < r.vowel_ids@.len() ==> r.vowel_ids@[x] == spec_vowel_ids(
            accent_phrases.deep_view(),
        )[x],
        r.consonant_ids@.len() == spec_consonant_ids(accent_phrases.deep_view()).len(),
        forall|x: int| 0 <= x < r.consonant_ids@.len() ==> r.consonant_ids@[x]
            == spec_consonant_ids(accent_phrases.deep_view())[x],
        r.start_accent@.len() == spec_resampled_list(
            accent_phrases.deep_view(),
            AccentMark::StartAccent,
        ).len(),
        forall|x: int| 0 <= x < r.start_accent@.len() ==> r.start_accent@[x]
            == spec_resampled_list(accent_phrases.deep_view(), AccentMark::StartAccent)[x],
        r.end_accent@.len() == spec_resampled_list(
            accent_phrases.deep_view(),
            AccentMark::EndAccent,
        ).len(),
        forall|x: int| 0 <= x < r.end_accent@.len() ==> r.end_accent@[x] == spec_resampled_list(
            accent_phrases.deep_view(),
            AccentMark::EndAccent,
        )[x],
        r.start_accent_phrase@.len() == spec_resampled_list(
            accent_phrases.deep_view(),
            AccentMark::StartPhrase,
        ).len(),
        forall|x: int| 0 <= x < r.start_accent_phrase@.len() ==> r.start_accent_phrase@[x]
            == spec_resampled_list(accent_phrases.deep_view(), AccentMark::StartPhrase)[x],
        r.end_accent_phrase@.len() == spec_resampled_list(
            accent_phrases.deep_view(),
            AccentMark::EndPhrase,
        ).len(),
        forall|x: int| 0 <= x < r.end_accent_phrase@.len() ==> r.end_accent_phrase@[x]
            == spec_resampled_list(accent_phrases.deep_view(), AccentMark::EndPhrase)[x],
        r.vowel_ids@.len() == spec_flatten_moras(accent_phrases.deep_view()).len() + 2,
{
    let ghost dv = accent_phrases.deep_view();
    let ghost ps = spec_phoneme_data(dv);
    let ghost vi = spec_vowel_indexes(ps);
    proof {
        lemma_vowel_alignment(dv);
        crate::align::lemma_flat_symbol_count(dv);
    }
    let (_flat, phoneme_data_list) = initial_process(accent_phrases);
    let (consonant_list, vowel_list, vowel_indexes) = split_mora(&phoneme_data_list);

    let nv = vowel_list.len();
    let mut vowel_ids: Vec<i64> = Vec::new();
    let mut k: usize = 0;
    while k < nv
        invariant
            0 <= k <= nv,
            nv == vowel_list@.len(),
            vowel_list.deep_view() == crate::align::spec_vowel_symbols(ps),
            ps == spec_phoneme_data(dv),
            vowel_ids@.len() == k,
            forall|x: int| 0 <= x < k ==> vowel_ids@[x] == spec_vowel_ids(dv)[x],
        decreases nv - k,
    {
        let ghost old_r = vowel_ids@;
        let id = vowel_list[k].phoneme_id();
        vowel_ids.push(id);
        proof {
            assert(vowel_list@[k as int]@ == crate::align::spec_vowel_symbols(ps)[k as int]);
            assert(vowel_ids@.len() == old_r.len() + 1);
            assert(forall|x: int| 0 <= x < k ==> vowel_ids@[x] == old_r[x]);
            assert(vowel_ids@[k as int] == spec_vowel_ids(dv)[k as int]);
        }
        k += 1;
    }

    let nc = consonant_list.len();
    let mut consonant_ids: Vec<i64> = Vec::new();
    let mut k: usize = 0;
    while k < nc
        invariant
            0 <= k <= nc,
            nc == consonant_list@.len(),
            consonant_list.deep_view() == crate::align::spec_consonant_symbols(ps),
            ps == spec_phoneme_data(dv),
            consonant_ids@.len() == k,
            forall|x: int| 0 <= x < k ==> consonant_ids@[x] == spec_consonant_ids(dv)[x],
        decreases nc - k,
    {
        let ghost old_r = consonant_ids@;
        let id = consonant_list[k].phoneme_id();
        consonant_ids.push(id);
        proof {
            assert(consonant_list@[k as int]@ == crate::align::spec_consonant_symbols(
                ps,
            )[k as int]);
            assert(consonant_ids@.len() == old_r.len() + 1);
            assert(forall|x: int| 0 <= x < k ==> consonant_ids@[x] == old_r[x]);
            assert(consonant_ids@[k as int] == spec_consonant_ids(dv)[k as int]);
        }
        k += 1;
    }

    proof {
        lemma_base_list_len(dv, AccentMark::StartAccent);
        lemma_base_list_len(dv, AccentMark::EndAccent);
        lemma_base_list_len(dv, AccentMark::StartPhrase);
        lemma_base_list_len(dv, AccentMark::EndPhrase);
    }
    let base_sa = base_accent_list(accent_phrases, &AccentMark::StartAccent);
    let start_accent = resample_to_vowels(
        &base_sa,
        &vowel_indexes,
        Ghost(dv),
        Ghost(AccentMark::StartAccent),
    );
    let base_ea = base_accent_list(accent_phrases, &AccentMark::EndAccent);
    let end_accent = resample_to_vowels(
        &base_ea,
        &vowel_indexes,
        Ghost(dv),
        Ghost(AccentMark::EndAccent),
    );
    let base_sp = base_accent_list(accent_phrases, &AccentMark::StartPhrase);
    let start_accent_phrase = resample_to_vowels(
        &base_sp,
        &vowel_indexes,
        Ghost(dv),
        Ghost(AccentMark::StartPhrase),
    );
    let base_ep = base_accent_list(accent_phrases, &AccentMark::EndPhrase);
    let end_accent_phrase = resample_to_vowels(
        &base_ep,
        &vowel_indexes,
        Ghost(dv),
        Ghost(AccentMark::EndPhrase),
    );
    PitchRequest {
        vowel_ids,
        consonant_ids,
        start_accent,
        end_accent,
        start_accent_phrase,
        end_accent_phrase,
    }
}

/// Checks [`pause_moras_bare`] and the accent bound the marker builders
/// need on accent-phrase models.
pub fn check_pitch_inputs_ok(accent_phrases: &Vec<AccentPhraseModel>) -> (b: bool)
    ensures
        b == (pause_moras_bare(accent_phrases.deep_view()) && forall|p: int|
            0 <= p < accent_phrases.deep_view().len() ==> (
            #[trigger] accent_phrases.deep_view()[p]).accent <= 0x7fff_ffff),
{
    let ghost dv = accent_phrases.deep_view();
    let n = accent_phrases.len();
    let mut p: usize = 0;
    while p < n
        invariant
            0 <= p <= n,
            n == dv.len(),
            dv == accent_phrases.deep_view(),
            forall|q: int| 0 <= q < p && (#[trigger] dv[q]).pause_mora is Some ==> dv[q].pause_mora->Some_0.consonant is None,
            forall|q: int| 0 <= q < p ==> (#[trigger] dv[q]).accent <= 0x7fff_ffff,
        decreases n - p,
    {
        proof {
            assert(accent_phrases@[p as int]@ == dv[p as int]);
        }
        if accent_phrases[p].accent > 0x7fff_ffff {
            return false;
        }
        match &accent_phrases[p].pause_mora {
            Some(pm) => {
                if pm.consonant.is_some() {
                    proof {
                        assert(dv[p as int].pause_mora->Some_0.consonant is Some);
                    }
                    return false;
                }
            },
            None => {},
        }
        p += 1;
    }
    true
}

} // verus!
