use vstd::prelude::*;

use crate::align::initial_process;
use crate::align::lemma_flatten_offsets;
use crate::align::lemma_vowel_alignment;
use crate::align::mora_count;
use crate::align::offset_of;
use crate::align::phrases_wf;
use crate::align::spec_flatten_moras;
use crate::align::spec_phoneme_data;
use crate::align::spec_vowel_indexes;
use crate::align::split_mora;
use crate::model::AccentPhraseModel;
use crate::model::AccentPhraseModelView;
use crate::model::MoraModel;
use crate::model::MoraModelView;
use crate::scalar::Scalar;

verus! {

// The duration stage: the duration service returns one length per flat
// position, and those lengths are scattered back onto the moras through
// the vowel-index table.  Mora `g` of the flat order takes its vowel
// length from the flat position of its vowel, and its consonant length,
// when it has a consonant, from the position directly before it.

/// One mora with the service lengths for flat mora position `g` filled in.
pub open spec fn spec_scattered_mora(
    m: MoraModelView,
    lengths: Seq<Scalar>,
    vi: Seq<int>,
    g: int,
) -> MoraModelView {
    MoraModelView {
        text: m.text,
        consonant: m.consonant,
        consonant_length: match m.consonant {
            Some(_) => Some(lengths[vi[g + 1] - 1]),
            None => None,
        },
        vowel: m.vowel,
        vowel_length: lengths[vi[g + 1]],
        pitch: m.pitch,
    }
}

/// One pause mora with the service length for flat mora position `g`
/// filled in; its other fields pass through unchanged.
pub open spec fn spec_scattered_pause(
    m: MoraModelView,
    lengths: Seq<Scalar>,
    vi: Seq<int>,
    g: int,
) -> MoraModelView {
    MoraModelView { vowel_length: lengths[vi[g + 1]], ..m }
}

/// One phrase with all its service lengths filled in.
pub open spec fn spec_scattered_phrase(
    ap: AccentPhraseModelView,
    lengths: Seq<Scalar>,
    vi: Seq<int>,
    off: int,
) -> AccentPhraseModelView {
    AccentPhraseModelView {
        moras: Seq::new(
            ap.moras.len(),
            |k: int| spec_scattered_mora(ap.moras[k], lengths, vi, off + k),
        ),
        accent: ap.accent,
        pause_mora: match ap.pause_mora {
            Some(pm) => Some(spec_scattered_pause(pm, lengths, vi, off + ap.moras.len())),
            None => None,
        },
        is_interrogative: ap.is_interrogative,
    }
}

/// What the duration stage returns: every length field rewritten from the
/// service output, everything else unchanged.
pub open spec fn spec_replace_phoneme_length(
    phrases: Seq<AccentPhraseModelView>,
    lengths: Seq<Scalar>,
) -> Seq<AccentPhraseModelView> {
    let vi = spec_vowel_indexes(spec_phoneme_data(phrases));
    Seq::new(
        phrases.len(),
        |p: int| spec_scattered_phrase(phrases[p], lengths, vi, offset_of(phrases, p)),
    )
}

/// Scatters the duration service's per-position lengths back onto the
/// moras, walking the phrases in lockstep with the vowel-index table.
pub fn replace_phoneme_length(
    accent_phrases: &Vec<AccentPhraseModel>,
    phoneme_length: &Vec<Scalar>,
) -> (r: Vec<AccentPhraseModel>)
    requires
        phrases_wf(accent_phrases.deep_view()),
        phoneme_length@.len() == spec_phoneme_data(accent_phrases.deep_view()).len(),
        phoneme_length@.len() < 0x8000_0000_0000_0000,
    ensures
        r.deep_view() == spec_replace_phoneme_length(accent_phrases.deep_view(), phoneme_length@),
{
    let ghost dv = accent_phrases.deep_view();
    let ghost ms = spec_flatten_moras(dv);
    let ghost vi = spec_vowel_indexes(spec_phoneme_data(dv));
    proof {
        lemma_vowel_alignment(dv);
    }
    let (_flat, phoneme_data_list) = initial_process(accent_phrases);
    let split = split_mora(&phoneme_data_list);
    let vowel_indexes = split.2;
    let nv = vowel_indexes.len();
    let plen = phoneme_length.len();
    let n = accent_phrases.len();
    let mut out: Vec<AccentPhraseModel> = Vec::new();
    let mut index: usize = 0;
    let mut p: usize = 0;
    while p < n
        invariant
            0 <= p <= n,
            n == dv.len(),
            dv == accent_phrases.deep_view(),
            ms == spec_flatten_moras(dv),
            vi == spec_vowel_indexes(spec_phoneme_data(dv)),
            vi.len() == ms.len() + 2,
            vowel_indexes@.len() == vi.len(),
            nv == vi.len(),
            plen == phoneme_length@.len(),
            forall|x: int| 0 <= x < vi.len() ==> vowel_indexes@[x] == vi[x],
            forall|x: int| 0 <= x < ms.len() ==> 1 <= #[trigger] vi[x + 1] < phoneme_length@.len()
                - 1,
            forall|x: int| 0 <= x < ms.len() && (#[trigger] ms[x]).consonant is Some ==> vi[x + 1]
                >= 2,
            phoneme_length@.len() == spec_phoneme_data(dv).len(),
            phoneme_length@.len() < 0x8000_0000_0000_0000,
            index == offset_of(dv, p as int),
            0 <= index,
            out.deep_view().len() == p,
            forall|q: int| 0 <= q < p ==> out.deep_view()[q] == spec_scattered_phrase(
                dv[q],
                phoneme_length@,
                vi,
                offset_of(dv, q),
            ),
        decreases n - p,
    {
        proof {
            lemma_flatten_offsets(dv, p as int);
        }
        let ghost ap = dv[p as int];
        let ghost off = offset_of(dv, p as int);
        let phrase = &accent_phrases[p];
        proof {
            assert(phrase@ == ap);
        }
        let nm = phrase.moras.len();
        let mut moras: Vec<MoraModel> = Vec::new();
        let mut k: usize = 0;
        while k < nm
            invariant
                0 <= k <= nm,
                0 <= p < n,
                n == dv.len(),
                dv == accent_phrases.deep_view(),
                ap == dv[p as int],
                accent_phrases@[p as int]@ == ap,
                nm == ap.moras.len(),
                ms == spec_flatten_moras(dv),
                vi == spec_vowel_indexes(spec_phoneme_data(dv)),
                vi.len() == ms.len() + 2,
                vowel_indexes@.len() == vi.len(),
                nv == vi.len(),
                plen == phoneme_length@.len(),
                forall|x: int| 0 <= x < vi.len() ==> vowel_indexes@[x] == vi[x],
                forall|x: int| 0 <= x < ms.len() ==> 1 <= #[trigger] vi[x + 1]
                    < phoneme_length@.len() - 1,
                forall|x: int| 0 <= x < ms.len() && (#[trigger] ms[x]).consonant is Some ==> vi[x
                    + 1] >= 2,
                phoneme_length@.len() == spec_phoneme_data(dv).len(),
                off == offset_of(dv, p as int),
                0 <= off,
                off + mora_count(ap) <= ms.len(),
                forall|x: int| 0 <= x < nm ==> ms[off + x] == ap.moras[x],
                index == off + k,
                moras.deep_view().len() == k,
                forall|x: int| 0 <= x < k ==> moras.deep_view()[x] == spec_scattered_mora(
                    ap.moras[x],
                    phoneme_length@,
                    vi,
                    off + x,
                ),
            decreases nm - k,
        {
            let ghost g = off + k;
            proof {
                assert(ms[g] == ap.moras[k as int]);
                assert(vowel_indexes@[g + 1] == vi[g + 1]);
                assert(1 <= vi[g + 1] < phoneme_length@.len() - 1);
                assert(index + 1 < nv);
            }
            let vie_raw = vowel_indexes[index + 1];
            let vie = vie_raw as usize;
            let m = &accent_phrases[p].moras[k];
            proof {
                assert(vie_raw == vi[g + 1]);
                assert(vie as int == vi[g + 1]);
                assert(accent_phrases@[p as int].moras@[k as int]@ == ap.moras[k as int]);
                if ap.moras[k as int].consonant is Some {
                    assert(vi[g + 1] >= 2);
                }
            }
            let consonant_length: Option<Scalar> = match &m.consonant {
                Some(_) => Some(phoneme_length[vie - 1]),
                None => None,
            };
            let new_mora = MoraModel {
                text: m.text.clone(),
                consonant: match &m.consonant {
                    Some(c) => Some(c.clone()),
                    None => None,
                },
                consonant_length,
                vowel: m.vowel.clone(),
                vowel_length: phoneme_length[vie],
                pitch: m.pitch,
            };
            proof {
                assert(m@.consonant == ap.moras[k as int].consonant);
                assert(new_mora@ =~= spec_scattered_mora(ap.moras[k as int], phoneme_length@, vi, g));
            }
            let ghost nmv = new_mora@;
            let ghost old_dv = moras.deep_view();
            moras.push(new_mora);
            proof {
                assert(moras.deep_view().len() == old_dv.len() + 1);
                assert(forall|x: int| 0 <= x < k ==> moras.deep_view()[x] == old_dv[x]);
                assert(moras.deep_view()[k as int] == nmv);
                assert forall|x: int| 0 <= x < k + 1 implies moras.deep_view()[x]
                    == spec_scattered_mora(ap.moras[x], phoneme_length@, vi, off + x) by {
                    if x < k {
                        assert(moras.deep_view()[x] == old_dv[x]);
                        assert(old_dv[x] == spec_scattered_mora(
                            ap.moras[x],
                            phoneme_length@,
                            vi,
                            off + x,
                        ));
                    } else {
                        assert(moras.deep_view()[x] == nmv);
                    }
                }
            }
            index += 1;
            k += 1;
        }
        let pause_mora: Option<MoraModel> = match &accent_phrases[p].pause_mora {
            Some(pm) => {
                proof {
                    assert(accent_phrases@[p as int]@ == ap);
                    assert(ap.pause_mora is Some);
                    assert(ms[off + nm] == ap.pause_mora->Some_0);
                    assert(vowel_indexes@[off + nm + 1] == vi[off + nm + 1]);
                    assert(1 <= vi[off + nm + 1] < phoneme_length@.len() - 1);
                    assert(index + 1 < nv);
                }
                let vie_raw = vowel_indexes[index + 1];
                let vie = vie_raw as usize;
                proof {
                    assert(vie_raw == vi[off + nm + 1]);
                    assert(vie as int == vi[off + nm + 1]);
                }
                let new_pause = MoraModel {
                    text: pm.text.clone(),
                    consonant: match &pm.consonant {
                        Some(c) => Some(c.clone()),
                        None => None,
                    },
                    consonant_length: pm.consonant_length,
                    vowel: pm.vowel.clone(),
                    vowel_length: phoneme_length[vie],
                    pitch: pm.pitch,
                };
                proof {
                    assert(accent_phrases@[p as int].pause_mora->Some_0@ == ap.pause_mora->Some_0);
                    assert(new_pause@ =~= spec_scattered_pause(
                        ap.pause_mora->Some_0,
                        phoneme_length@,
                        vi,
                        off + nm,
                    ));
                }
                index += 1;
                Some(new_pause)
            },
            None => None,
        };
        let new_phrase = AccentPhraseModel {
            moras,
            accent: phrase.accent,
            pause_mora,
            is_interrogative: phrase.is_interrogative,
        };
        proof {
            assert(moras.deep_view() =~= Seq::new(
                ap.moras.len(),
                |k: int| spec_scattered_mora(ap.moras[k], phoneme_length@, vi, off + k),
            ));
            assert(new_phrase@ =~= spec_scattered_phrase(ap, phoneme_length@, vi, off));
        }
        let ghost npv = new_phrase@;
        let ghost old_out = out.deep_view();
        out.push(new_phrase);
        proof {
            assert(out.deep_view().len() == old_out.len() + 1);
            assert(forall|q: int| 0 <= q < p ==> out.deep_view()[q] == old_out[q]);
            assert(out.deep_view()[p as int] == npv);
            assert(offset_of(dv, p + 1) == offset_of(dv, p as int) + mora_count(dv[p as int]));
            assert forall|q: int| 0 <= q < p + 1 implies out.deep_view()[q]
                == spec_scattered_phrase(dv[q], phoneme_length@, vi, offset_of(dv, q)) by {
                if q < p {
                    assert(out.deep_view()[q] == old_out[q]);
                    assert(old_out[q] == spec_scattered_phrase(
                        dv[q],
                        phoneme_length@,
                        vi,
                        offset_of(dv, q),
                    ));
                } else {
                    assert(out.deep_view()[q] == npv);
                }
            }
        }
        p += 1;
    }
    proof {
        assert(out.deep_view() =~= spec_replace_phoneme_length(dv, phoneme_length@));
    }
    out
}

/// Every length the duration stage writes is one of the service's values:
/// the stage moves lengths, it never invents one.
pub proof fn lemma_lengths_from_service(
    phrases: Seq<AccentPhraseModelView>,
    lengths: Seq<Scalar>,
)
    requires
        phrases_wf(phrases),
        lengths.len() == spec_phoneme_data(phrases).len(),
    ensures
        forall|p: int, k: int|
            0 <= p < phrases.len() && 0 <= k < phrases[p].moras.len() ==> lengths.contains(
                (#[trigger] spec_replace_phoneme_length(phrases, lengths)[p].moras[k]).vowel_length,
            ),
{
    lemma_vowel_alignment(phrases);
    assert forall|p: int, k: int|
        0 <= p < phrases.len() && 0 <= k < phrases[p].moras.len() implies lengths.contains(
        (#[trigger] spec_replace_phoneme_length(phrases, lengths)[p].moras[k]).vowel_length,
    ) by {
        lemma_flatten_offsets(phrases, p);
        let vi = spec_vowel_indexes(spec_phoneme_data(phrases));
        let g = offset_of(phrases, p) + k;
        let v = spec_replace_phoneme_length(phrases, lengths)[p].moras[k].vowel_length;
        assert(v == lengths[vi[g + 1]]);
    }
}

} // verus!
