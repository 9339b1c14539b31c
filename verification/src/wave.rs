use vstd::prelude::*;

use crate::align::spec_vowel_indexes;
use crate::align::split_mora;
use crate::model::AccentPhraseModel;
use crate::model::AccentPhraseModelView;
use crate::model::MoraModel;
use crate::model::MoraModelView;
use crate::mora_text::mora_to_text;
use crate::mora_text::spec_mora_to_text;
use crate::ojt_phoneme::spec_phoneme_id;
use crate::ojt_phoneme::OjtPhoneme;
use crate::ojt_phoneme::NUM_PHONEME;
use crate::scalar::scalar_is_nonzero;
use crate::scalar::scalar_is_positive;
use crate::scalar::scalar_one;
use crate::scalar::scalar_zero;
use crate::scalar::Scalar;

verus! {

// The waveform stage's exact bookkeeping: the optional interrogative
// extension, the flat length and pitch lists, frame-rate expansion into a
// one-hot class matrix and a per-frame pitch curve, the symmetric padding
// the decoder wants around them, and the trimming of that padding from
// the decoder's output.  The caller performs the floating-point
// arithmetic (pitch and speed scaling, the intonation mean, the frame
// count of each length) and hands the results in as plain values.

/// The waveform sample rate, in samples per second.
pub const SAMPLE_RATE: usize = 24000;

/// The decoder's internal hop: samples per frame.
pub const FRAME_HOP: usize = 256;

/// How many frames of silence pad the decoder's input on each side: four
/// tenths of a second at the frame rate, rounded half up.
pub const PADDING_FRAMES: usize = (SAMPLE_RATE * 2 / 5 + FRAME_HOP / 2) / FRAME_HOP;

/// The bit pattern of the fixed length of the synthetic interrogative
/// mora: fifteen hundredths of a second.
pub const FIX_VOWEL_LENGTH_BITS: u32 = 0x3e19_999a;

/// The synthetic mora the interrogative extension appends: a vowel-only
/// repeat of the phrase's final vowel at the fixed length, carrying the
/// raised pitch the caller computed.
pub open spec fn spec_interrogative_mora(last: MoraModelView, pitch: Scalar) -> MoraModelView {
    MoraModelView {
        text: spec_mora_to_text(last.vowel),
        consonant: None,
        consonant_length: None,
        vowel: last.vowel,
        vowel_length: Scalar { bits: FIX_VOWEL_LENGTH_BITS },
        pitch,
    }
}

/// Builds the synthetic interrogative mora.
pub fn make_interrogative_mora(last_mora: &MoraModel, pitch: Scalar) -> (r: MoraModel)
    ensures
        r@ == spec_interrogative_mora(last_mora@, pitch),
{
    let r = MoraModel {
        text: mora_to_text(last_mora.vowel.clone()),
        consonant: None,
        consonant_length: None,
        vowel: last_mora.vowel.clone(),
        vowel_length: Scalar::from_bits(FIX_VOWEL_LENGTH_BITS),
        pitch,
    };
    proof {
        assert(r@ =~= spec_interrogative_mora(last_mora@, pitch));
    }
    r
}

/// Whether the interrogative extension fires for a phrase: the phrase is
/// interrogative, has at least one mora, and its final mora is voiced.
pub open spec fn spec_upspeak_applies(ap: AccentPhraseModelView) -> bool {
    ap.is_interrogative && ap.moras.len() > 0 && scalar_is_nonzero(ap.moras.last().pitch)
}

/// One phrase after the interrogative extension, given the raised pitch
/// the caller computed for it.
pub open spec fn spec_adjusted_phrase(ap: AccentPhraseModelView, bumped: Scalar) -> AccentPhraseModelView {
    if spec_upspeak_applies(ap) {
        AccentPhraseModelView {
            moras: ap.moras.push(spec_interrogative_mora(ap.moras.last(), bumped)),
            ..ap
        }
    } else {
        ap
    }
}

/// Appends the synthetic interrogative mora to every phrase the extension
/// fires for.  `bumped_pitches` holds, for each phrase, the raised pitch
/// the caller computed from its final mora; phrases the extension skips
/// ignore their entry.
pub fn adjust_interrogative_accent_phrases(
    accent_phrases: &Vec<AccentPhraseModel>,
    bumped_pitches: &Vec<Scalar>,
) -> (r: Vec<AccentPhraseModel>)
    requires
        bumped_pitches@.len() == accent_phrases.deep_view().len(),
    ensures
        r.deep_view().len() == accent_phrases.deep_view().len(),
        forall|p: int| 0 <= p < r.deep_view().len() ==> r.deep_view()[p] == spec_adjusted_phrase(
            accent_phrases.deep_view()[p],
            bumped_pitches@[p],
        ),
{
    let ghost dv = accent_phrases.deep_view();
    let n = accent_phrases.len();
    let mut out: Vec<AccentPhraseModel> = Vec::new();
    let mut p: usize = 0;
    while p < n
        invariant
            0 <= p <= n,
            n == dv.len(),
            dv == accent_phrases.deep_view(),
            bumped_pitches@.len() == dv.len(),
            out.deep_view().len() == p,
            forall|q: int| 0 <= q < p ==> out.deep_view()[q] == spec_adjusted_phrase(
                dv[q],
                bumped_pitches@[q],
            ),
        decreases n - p,
    {
        let phrase = &accent_phrases[p];
        let ghost ap = dv[p as int];
        proof {
            assert(phrase@ == ap);
        }
        let nm = phrase.moras.len();
        let fires = phrase.is_interrogative && nm > 0 && phrase.moras[nm - 1].pitch.is_nonzero();
        proof {
            if nm > 0 {
                assert(phrase.moras@[nm - 1]@ == ap.moras[nm - 1]);
                assert(ap.moras.last() == ap.moras[nm - 1]);
            }
            assert(fires == spec_upspeak_applies(ap));
        }
        let new_phrase = if fires {
            proof {
                assert(accent_phrases@[p as int].moras@.len() == nm);
            }
            let last = &accent_phrases[p].moras[nm - 1];
            let extra = make_interrogative_mora(last, bumped_pitches[p]);
            let ghost ev = extra@;
            let mut moras: Vec<MoraModel> = Vec::new();
            let mut k: usize = 0;
            while k < nm
                invariant
                    0 <= k <= nm,
                    0 <= p < n,
                    n == dv.len(),
                    dv == accent_phrases.deep_view(),
                    ap == dv[p as int],
                    accent_phrases@[p as int]@ == ap,
                    nm == ap.moras.len(),
                    moras.deep_view().len() == k,
                    forall|x: int| 0 <= x < k ==> moras.deep_view()[x] == ap.moras[x],
                decreases nm - k,
            {
                proof {
                    assert(accent_phrases@[p as int].moras@.len() == nm);
                }
                let ghost old_dv = moras.deep_view();
                let m = accent_phrases[p].moras[k].clone();
                proof {
                    assert(accent_phrases@[p as int].moras@[k as int]@ == ap.moras[k as int]);
                }
                moras.push(m);
                proof {
                    assert(moras.deep_view().len() == old_dv.len() + 1);
                    assert(forall|x: int| 0 <= x < k ==> moras.deep_view()[x] == old_dv[x]);
                }
                k += 1;
            }
            let ghost old_dv = moras.deep_view();
            moras.push(extra);
            proof {
                assert(moras.deep_view().len() == old_dv.len() + 1);
                assert(forall|x: int| 0 <= x < nm ==> moras.deep_view()[x] == old_dv[x]);
                assert(moras.deep_view()[nm as int] == ev);
                assert(moras.deep_view() =~= ap.moras.push(
                    spec_interrogative_mora(ap.moras.last(), bumped_pitches@[p as int]),
                ));
            }
            let np = AccentPhraseModel {
                moras,
                accent: phrase.accent,
                pause_mora: match &phrase.pause_mora {
                    Some(pm) => Some(pm.clone()),
                    None => None,
                },
                is_interrogative: phrase.is_interrogative,
            };
            proof {
                assert(np@ =~= spec_adjusted_phrase(ap, bumped_pitches@[p as int]));
            }
            np
        } else {
            let mut moras: Vec<MoraModel> = Vec::new();
            let mut k: usize = 0;
            while k < nm
                invariant
                    0 <= k <= nm,
                    0 <= p < n,
                    n == dv.len(),
                    dv == accent_phrases.deep_view(),
                    ap == dv[p as int],
                    accent_phrases@[p as int]@ == ap,
                    nm == ap.moras.len(),
                    moras.deep_view().len() == k,
                    forall|x: int| 0 <= x < k ==> moras.deep_view()[x] == ap.moras[x],
                decreases nm - k,
            {
                proof {
                    assert(accent_phrases@[p as int].moras@.len() == nm);
                }
                let ghost old_dv = moras.deep_view();
                let m = accent_phrases[p].moras[k].clone();
                proof {
                    assert(accent_phrases@[p as int].moras@[k as int]@ == ap.moras[k as int]);
                }
                moras.push(m);
                proof {
                    assert(moras.deep_view().len() == old_dv.len() + 1);
                    assert(forall|x: int| 0 <= x < k ==> moras.deep_view()[x] == old_dv[x]);
                }
                k += 1;
            }
            let np = AccentPhraseModel {
                moras,
                accent: phrase.accent,
                pause_mora: match &phrase.pause_mora {
                    Some(pm) => Some(pm.clone()),
                    None => None,
                },
                is_interrogative: phrase.is_interrogative,
            };
            proof {
                assert(moras.deep_view() =~= ap.moras);
                assert(np@ =~= ap);
            }
            np
        };
        let ghost npv = new_phrase@;
        let ghost old_out = out.deep_view();
        out.push(new_phrase);
        proof {
            assert(out.deep_view().len() == old_out.len() + 1);
            assert(forall|q: int| 0 <= q < p ==> out.deep_view()[q] == old_out[q]);
            assert(out.deep_view()[p as int] == npv);
            assert forall|q: int| 0 <= q < p + 1 implies out.deep_view()[q]
                == spec_adjusted_phrase(dv[q], bumped_pitches@[q]) by {
                if q < p {
                    assert(out.deep_view()[q] == old_out[q]);
                } else {
                    assert(out.deep_view()[q] == npv);
                }
            }
        }
        p += 1;
    }
    out
}

/// The flat per-phoneme length list of a mora sequence: each consonant
/// length, then each vowel length, in flat order.
pub open spec fn spec_length_list(ms: Seq<MoraModelView>) -> Seq<Scalar>
    decreases ms.len(),
{
    if ms.len() == 0 {
        Seq::empty()
    } else {
        (match ms[0].consonant_length {
            Some(c) => seq![c, ms[0].vowel_length],
            None => seq![ms[0].vowel_length],
        }) + spec_length_list(ms.drop_first())
    }
}

/// The per-mora pitch list of a mora sequence.
pub open spec fn spec_pitch_list(ms: Seq<MoraModelView>) -> Seq<Scalar> {
    Seq::new(ms.len(), |k: int| ms[k].pitch)
}

/// Builds the flat length and pitch lists of the flattened moras, with
/// the leading and trailing silence entries: the caller's pre-roll and
/// post-roll lengths around the lengths, zero pitch around the pitches.
pub fn frame_parameter_lists(
    flatten_moras: &Vec<MoraModel>,
    pre_length: Scalar,
    post_length: Scalar,
) -> (r: (Vec<Scalar>, Vec<Scalar>))
    ensures
        r.0@ == seq![pre_length] + spec_length_list(flatten_moras.deep_view()) + seq![post_length],
        r.1@ == seq![scalar_zero()] + spec_pitch_list(flatten_moras.deep_view()) + seq![
            scalar_zero(),
        ],
{
    let ghost ms = flatten_moras.deep_view();
    let n = flatten_moras.len();
    let mut lengths: Vec<Scalar> = Vec::new();
    let mut pitches: Vec<Scalar> = Vec::new();
    lengths.push(pre_length);
    pitches.push(Scalar::zero());
    let mut k: usize = 0;
    proof {
        assert(ms.skip(0) =~= ms);
        assert(lengths@ =~= seq![pre_length]);
        assert(lengths@ + spec_length_list(ms.skip(0)) =~= seq![pre_length] + spec_length_list(
            ms,
        ));
        assert(pitches@ =~= seq![scalar_zero()]);
    }
    while k < n
        invariant
            0 <= k <= n,
            n == ms.len(),
            ms == flatten_moras.deep_view(),
            lengths@ + spec_length_list(ms.skip(k as int)) =~= seq![pre_length]
                + spec_length_list(ms),
            pitches@.len() == k + 1,
            pitches@[0] == scalar_zero(),
            forall|x: int| 0 <= x < k ==> pitches@[x + 1] == ms[x].pitch,
        decreases n - k,
    {
        let ghost m = ms[k as int];
        let ghost old_lengths = lengths@;
        let ghost old_pitches = pitches@;
        match &flatten_moras[k].consonant_length {
            Some(c) => {
                lengths.push(*c);
                proof {
                    assert(flatten_moras@[k as int]@ == m);
                    assert(lengths@ =~= old_lengths.push(m.consonant_length->Some_0));
                }
            },
            None => {},
        }
        let ghost mid_lengths = lengths@;
        lengths.push(flatten_moras[k].vowel_length);
        pitches.push(flatten_moras[k].pitch);
        proof {
            assert(flatten_moras@[k as int]@ == m);
            assert(lengths@ =~= mid_lengths.push(m.vowel_length));
            assert(pitches@ =~= old_pitches.push(m.pitch));
            assert(ms.skip(k as int)[0] == m);
            assert(ms.skip(k as int).drop_first() =~= ms.skip(k + 1));
            assert(spec_length_list(ms.skip(k as int)) == (match m.consonant_length {
                Some(c) => seq![c, m.vowel_length],
                None => seq![m.vowel_length],
            }) + spec_length_list(ms.skip(k + 1)));
            assert(lengths@ + spec_length_list(ms.skip(k + 1)) =~= seq![pre_length]
                + spec_length_list(ms));
        }
        k += 1;
    }
    let ghost old_lengths = lengths@;
    let ghost old_pitches = pitches@;
    lengths.push(post_length);
    pitches.push(Scalar::zero());
    proof {
        assert(ms.skip(n as int) =~= Seq::<MoraModelView>::empty());
        assert(lengths@ =~= old_lengths.push(post_length));
        assert(lengths@ =~= seq![pre_length] + spec_length_list(ms) + seq![post_length]);
        assert(pitches@ =~= old_pitches.push(scalar_zero()));
        assert(pitches@ =~= seq![scalar_zero()] + spec_pitch_list(ms) + seq![scalar_zero()]);
    }
    (lengths, pitches)
}

/// Marks each entry whose value compares strictly greater than zero.
pub fn voiced_flags(f0_list: &Vec<Scalar>) -> (r: Vec<bool>)
    ensures
        r@.len() == f0_list@.len(),
        forall|x: int| 0 <= x < r@.len() ==> r@[x] == scalar_is_positive(f0_list@[x]),
{
    let n = f0_list.len();
    let mut r: Vec<bool> = Vec::new();
    let mut i: usize = 0;
    while i < n
        invariant
            0 <= i <= n,
            n == f0_list@.len(),
            r@.len() == i,
            forall|x: int| 0 <= x < i ==> r@[x] == scalar_is_positive(f0_list@[x]),
        decreases n - i,
    {
        let ghost old_r = r@;
        let v = f0_list[i].is_positive();
        r.push(v);
        proof {
            assert(r@.len() == old_r.len() + 1);
            assert(forall|x: int| 0 <= x < i ==> r@[x] == old_r[x]);
        }
        i += 1;
    }
    r
}

/// Replaces each voiced entry by the caller's shifted value and leaves
/// every unvoiced entry untouched.  A list with no voiced entry comes
/// back unchanged whatever the shifted values are, which is what protects
/// a fully-unvoiced utterance from the undefined mean.
pub fn apply_intonation_scaling(
    f0_list: &Vec<Scalar>,
    voiced_list: &Vec<bool>,
    scaled_list: &Vec<Scalar>,
) -> (r: Vec<Scalar>)
    requires
        voiced_list@.len() == f0_list@.len(),
        scaled_list@.len() == f0_list@.len(),
    ensures
        r@.len() == f0_list@.len(),
        forall|x: int| 0 <= x < r@.len() ==> r@[x] == if voiced_list@[x] {
            scaled_list@[x]
        } else {
            f0_list@[x]
        },
{
    let n = f0_list.len();
    let mut r: Vec<Scalar> = Vec::new();
    let mut i: usize = 0;
    while i < n
        invariant
            0 <= i <= n,
            n == f0_list@.len(),
            voiced_list@.len() == n,
            scaled_list@.len() == n,
            r@.len() == i,
            forall|x: int| 0 <= x < i ==> r@[x] == if voiced_list@[x] {
                scaled_list@[x]
            } else {
                f0_list@[x]
            },
        decreases n - i,
    {
        let ghost old_r = r@;
        let v: Scalar = if voiced_list[i] {
            scaled_list[i]
        } else {
            f0_list[i]
        };
        r.push(v);
        proof {
            assert(r@.len() == old_r.len() + 1);
            assert(forall|x: int| 0 <= x < i ==> r@[x] == old_r[x]);
        }
        i += 1;
    }
    r
}

/// A fully-unvoiced list passes through intonation scaling unchanged:
/// when no entry is voiced, the result is the input, whatever shifted
/// values the caller computed.
pub proof fn lemma_intonation_noop(
    f0_list: Seq<Scalar>,
    voiced_list: Seq<bool>,
    scaled_list: Seq<Scalar>,
    r: Seq<Scalar>,
)
    requires
        voiced_list.len() == f0_list.len(),
        scaled_list.len() == f0_list.len(),
        r.len() == f0_list.len(),
        forall|x: int| 0 <= x < r.len() ==> r[x] == if voiced_list[x] {
            scaled_list[x]
        } else {
            f0_list[x]
        },
        forall|x: int| 0 <= x < voiced_list.len() ==> !voiced_list[x],
    ensures
        r == f0_list,
{
    assert(r =~= f0_list);
}

/// The one-hot class row of phoneme id `id`: one at position `id`, zero
/// elsewhere.
pub open spec fn spec_onehot(id: int) -> Seq<Scalar> {
    Seq::new(
        NUM_PHONEME as nat,
        |j: int|
            if j == id {
                scalar_one()
            } else {
                scalar_zero()
            },
    )
}

/// `s` repeated `n` times.
pub open spec fn repeat_scalars(s: Seq<Scalar>, n: int) -> Seq<Scalar>
    decreases n when n >= 0
{
    if n <= 0 {
        Seq::empty()
    } else {
        s + repeat_scalars(s, n - 1)
    }
}

/// The flattened one-hot matrix from position `i` on: each position's
/// class row, repeated once per frame of that position.
pub open spec fn onehot_frames_from(ps: Seq<Seq<char>>, counts: Seq<usize>, i: int) -> Seq<Scalar>
    decreases ps.len() - i when 0 <= i <= ps.len()
{
    if i >= ps.len() {
        Seq::empty()
    } else {
        repeat_scalars(spec_onehot(spec_phoneme_id(ps[i])), counts[i] as int) + onehot_frames_from(
            ps,
            counts,
            i + 1,
        )
    }
}

/// The per-frame pitch curve from position `i` on: frames accumulate
/// silently until a vowel position, which emits the slot's pitch once per
/// frame accumulated since the previous vowel position.
pub open spec fn f0_frames_from(
    counts: Seq<usize>,
    vi: Seq<int>,
    f0: Seq<Scalar>,
    i: int,
    pending: int,
    vii: int,
) -> Seq<Scalar>
    decreases counts.len() - i when 0 <= i <= counts.len()
{
    if i >= counts.len() {
        Seq::empty()
    } else {
        let pend2 = pending + counts[i];
        if vii < vi.len() && i == vi[vii] {
            repeat_scalars(seq![f0[vii]], pend2) + f0_frames_from(counts, vi, f0, i + 1, 0, vii + 1)
        } else {
            f0_frames_from(counts, vi, f0, i + 1, pend2, vii)
        }
    }
}

/// The sum of the frame counts over positions `a` (inclusive) to `b`
/// (exclusive).
pub open spec fn counts_sum(counts: Seq<usize>, a: int, b: int) -> int
    decreases b - a when a <= b
{
    if a >= b {
        0
    } else {
        counts[a] + counts_sum(counts, a + 1, b)
    }
}

proof fn lemma_counts_sum_nonneg(counts: Seq<usize>, a: int, b: int)
    requires
        a <= b,
    ensures
        counts_sum(counts, a, b) >= 0,
    decreases b - a,
{
    if a < b {
        lemma_counts_sum_nonneg(counts, a + 1, b);
    }
}

proof fn lemma_counts_sum_split(counts: Seq<usize>, a: int, m: int, b: int)
    requires
        a <= m <= b,
    ensures
        counts_sum(counts, a, b) == counts_sum(counts, a, m) + counts_sum(counts, m, b),
    decreases m - a,
{
    if a < m {
        lemma_counts_sum_split(counts, a + 1, m, b);
    }
}

/// Expands the flat sequence to frame rate: each position's one-hot class
/// row repeated once per frame, and the pitch curve with each vowel
/// slot's value repeated over the frames since the previous vowel
/// position.  The caller computed each position's frame count from its
/// length, the frame rate and the speed scale.
pub fn expand_frames(
    phoneme_data_list: &Vec<OjtPhoneme>,
    frame_counts: &Vec<usize>,
    f0_values: &Vec<Scalar>,
) -> (r: (Vec<Scalar>, Vec<Scalar>))
    requires
        phoneme_data_list@.len() < 0x8000_0000_0000_0000,
        frame_counts@.len() == phoneme_data_list.deep_view().len(),
        f0_values@.len() == spec_vowel_indexes(phoneme_data_list.deep_view()).len(),
        spec_vowel_indexes(phoneme_data_list.deep_view()).len() > 0,
        spec_vowel_indexes(phoneme_data_list.deep_view()).last()
            == phoneme_data_list.deep_view().len() - 1,
        forall|i: int| 0 <= i < phoneme_data_list.deep_view().len() ==> 0 <= spec_phoneme_id(
            #[trigger] phoneme_data_list.deep_view()[i],
        ),
        counts_sum(frame_counts@, 0, frame_counts@.len() as int) <= usize::MAX,
    ensures
        r.0@ == onehot_frames_from(phoneme_data_list.deep_view(), frame_counts@, 0),
        r.1@ == f0_frames_from(
            frame_counts@,
            spec_vowel_indexes(phoneme_data_list.deep_view()),
            f0_values@,
            0,
            0,
            0,
        ),
{
    let ghost ps = phoneme_data_list.deep_view();
    let ghost vi = spec_vowel_indexes(ps);
    let ghost counts = frame_counts@;
    proof {
        crate::align::lemma_vidx_bounds(ps, 0);
    }
    let split = split_mora(phoneme_data_list);
    let vowel_indexes = split.2;
    let nv = vowel_indexes.len();
    let n = phoneme_data_list.len();
    let mut onehot: Vec<Scalar> = Vec::new();
    let mut f0_frames: Vec<Scalar> = Vec::new();
    let mut pending: usize = 0;
    let mut vii: usize = 0;
    let mut i: usize = 0;
    proof {
        assert(onehot@ + onehot_frames_from(ps, counts, 0) =~= onehot_frames_from(ps, counts, 0));
        assert(f0_frames@ + f0_frames_from(counts, vi, f0_values@, 0, 0, 0) =~= f0_frames_from(
            counts,
            vi,
            f0_values@,
            0,
            0,
            0,
        ));
    }
    while i < n
        invariant
            0 <= i <= n,
            n == ps.len(),
            ps == phoneme_data_list.deep_view(),
            counts == frame_counts@,
            counts.len() == n,
            vi == spec_vowel_indexes(ps),
            nv == vi.len(),
            nv > 0,
            vi.last() == n - 1,
            vowel_indexes@.len() == nv,
            forall|x: int| 0 <= x < nv ==> vowel_indexes@[x] == vi[x],
            forall|x: int| 0 <= x < nv ==> 0 <= #[trigger] vi[x] < n,
            forall|x1: int, x2: int| 0 <= x1 < x2 < nv ==> #[trigger] vi[x1] < #[trigger] vi[x2],
            forall|x: int| 0 <= x < n ==> 0 <= spec_phoneme_id(#[trigger] ps[x]),
            counts_sum(counts, 0, n as int) <= usize::MAX,
            f0_values@.len() == nv,
            0 <= vii <= nv,
            vii == nv ==> i as int > vi[nv - 1],
            pending <= counts_sum(counts, 0, i as int),
            onehot@ + onehot_frames_from(ps, counts, i as int) =~= onehot_frames_from(
                ps,
                counts,
                0,
            ),
            f0_frames@ + f0_frames_from(counts, vi, f0_values@, i as int, pending as int, vii as int)
                =~= f0_frames_from(counts, vi, f0_values@, 0, 0, 0),
        decreases n - i,
    {
        let c = frame_counts[i];
        proof {
            lemma_counts_sum_nonneg(counts, 0, i as int);
            lemma_counts_sum_split(counts, 0, i as int, i + 1);
            lemma_counts_sum_split(counts, 0, i + 1, n as int);
            lemma_counts_sum_nonneg(counts, i + 1, n as int);
            assert(counts_sum(counts, i + 1, i + 1) == 0);
            assert(counts_sum(counts, i as int, i + 1) == c);
            assert(pending + c <= counts_sum(counts, 0, i + 1));
            assert(counts_sum(counts, 0, i + 1) <= counts_sum(counts, 0, n as int));
        }
        let id = phoneme_data_list[i].phoneme_id();
        let ghost oh = spec_onehot(spec_phoneme_id(ps[i as int]));
        let ghost base_rest = onehot_frames_from(ps, counts, i + 1);
        proof {
            assert(phoneme_data_list@[i as int]@ == ps[i as int]);
            assert(onehot_frames_from(ps, counts, i as int) == repeat_scalars(oh, c as int)
                + base_rest);
        }
        let mut cdone: usize = 0;
        while cdone < c
            invariant
                0 <= cdone <= c,
                0 <= i < ps.len(),
                id == spec_phoneme_id(ps[i as int]),
                oh == spec_onehot(spec_phoneme_id(ps[i as int])),
                base_rest == onehot_frames_from(ps, counts, i + 1),
                onehot@ + repeat_scalars(oh, (c - cdone) as int) + base_rest
                    =~= onehot_frames_from(ps, counts, 0),
            decreases c - cdone,
        {
            let ghost row_base = onehot@;
            let mut j: usize = 0;
            while j < NUM_PHONEME
                invariant
                    0 <= j <= NUM_PHONEME,
                    id == spec_phoneme_id(ps[i as int]),
                    oh == spec_onehot(spec_phoneme_id(ps[i as int])),
                    onehot@ =~= row_base + oh.take(j as int),
                decreases NUM_PHONEME - j,
            {
                let ghost before = onehot@;
                let v: Scalar = if (j as i64) == id {
                    Scalar::one()
                } else {
                    Scalar::zero()
                };
                onehot.push(v);
                proof {
                    assert(onehot@ =~= before.push(oh[j as int]));
                    assert(onehot@ =~= row_base + oh.take(j + 1));
                }
                j += 1;
            }
            proof {
                assert(oh.take(NUM_PHONEME as int) =~= oh);
                assert(onehot@ =~= row_base + oh);
                assert(repeat_scalars(oh, (c - cdone) as int) == oh + repeat_scalars(
                    oh,
                    (c - cdone) as int - 1,
                ));
                assert(onehot@ + repeat_scalars(oh, (c - cdone - 1) as int) + base_rest
                    =~= onehot_frames_from(ps, counts, 0));
            }
            cdone += 1;
        }
        proof {
            assert(repeat_scalars(oh, 0) =~= Seq::<Scalar>::empty());
            assert(onehot@ + onehot_frames_from(ps, counts, i + 1) =~= onehot_frames_from(
                ps,
                counts,
                0,
            ));
        }
        let ghost old_pending = pending;
        pending = pending + c;
        proof {
            if vii == nv {
                assert(i as int > vi[nv - 1]);
                assert(false);
            }
            assert(vii < nv);
            assert(vowel_indexes@[vii as int] == vi[vii as int]);
        }
        let at_vowel = (i as i64) == vowel_indexes[vii];
        if at_vowel {
            let value = f0_values[vii];
            let ghost f0_rest = f0_frames_from(counts, vi, f0_values@, i + 1, 0, vii + 1);
            proof {
                assert(f0_frames_from(counts, vi, f0_values@, i as int, old_pending as int, vii as int)
                    == repeat_scalars(seq![f0_values@[vii as int]], pending as int) + f0_rest);
            }
            let mut e: usize = 0;
            while e < pending
                invariant
                    0 <= e <= pending,
                    value == f0_values@[vii as int],
                    f0_rest == f0_frames_from(counts, vi, f0_values@, i + 1, 0, vii + 1),
                    f0_frames@ + repeat_scalars(seq![value], (pending - e) as int) + f0_rest
                        =~= f0_frames_from(counts, vi, f0_values@, 0, 0, 0),
                decreases pending - e,
            {
                let ghost before = f0_frames@;
                f0_frames.push(value);
                proof {
                    assert(repeat_scalars(seq![value], (pending - e) as int) == seq![value]
                        + repeat_scalars(seq![value], (pending - e) as int - 1));
                    assert(f0_frames@ =~= before.push(value));
                    assert(f0_frames@ + repeat_scalars(seq![value], (pending - e - 1) as int)
                        + f0_rest =~= f0_frames_from(counts, vi, f0_values@, 0, 0, 0));
                }
                e += 1;
            }
            proof {
                assert(repeat_scalars(seq![value], 0) =~= Seq::<Scalar>::empty());
                assert(f0_frames@ + f0_frames_from(counts, vi, f0_values@, i + 1, 0, vii + 1)
                    =~= f0_frames_from(counts, vi, f0_values@, 0, 0, 0));
            }
            pending = 0;
            vii += 1;
            proof {
                if vii == nv {
                    assert(vi[nv - 1] == vi[vii - 1]);
                    assert(i as int == vi[vii - 1]);
                }
            }
        } else {
            proof {
                assert(i as int != vi[vii as int]);
                assert(f0_frames_from(counts, vi, f0_values@, i as int, old_pending as int, vii as int)
                    == f0_frames_from(counts, vi, f0_values@, i + 1, pending as int, vii as int));
            }
        }
        i += 1;
    }
    proof {
        assert(onehot_frames_from(ps, counts, n as int) =~= Seq::<Scalar>::empty());
        assert(onehot@ =~= onehot_frames_from(ps, counts, 0));
        assert(f0_frames_from(counts, vi, f0_values@, n as int, pending as int, vii as int)
            =~= Seq::<Scalar>::empty());
        assert(f0_frames@ =~= f0_frames_from(counts, vi, f0_values@, 0, 0, 0));
    }
    (onehot, f0_frames)
}

/// Pads a pitch curve with silence on both sides.
pub fn make_f0_with_padding(f0: &Vec<Scalar>, padding_size: usize) -> (r: Vec<Scalar>)
    ensures
        r@ == repeat_scalars(seq![scalar_zero()], padding_size as int) + f0@ + repeat_scalars(
            seq![scalar_zero()],
            padding_size as int,
        ),
{
    let mut r: Vec<Scalar> = Vec::new();
    let mut i: usize = 0;
    while i < padding_size
        invariant
            0 <= i <= padding_size,
            r@ =~= repeat_scalars(seq![scalar_zero()], i as int),
        decreases padding_size - i,
    {
        let ghost before = r@;
        r.push(Scalar::zero());
        proof {
            lemma_repeat_push(seq![scalar_zero()], i as int);
            assert(r@ =~= before.push(scalar_zero()));
        }
        i += 1;
    }
    let ghost head = r@;
    let nf = f0.len();
    let mut i: usize = 0;
    while i < nf
        invariant
            0 <= i <= nf,
            nf == f0@.len(),
            r@ =~= head + f0@.take(i as int),
        decreases nf - i,
    {
        let ghost before = r@;
        r.push(f0[i]);
        proof {
            assert(r@ =~= before.push(f0@[i as int]));
        }
        i += 1;
    }
    proof {
        assert(f0@.take(nf as int) =~= f0@);
    }
    let ghost mid = r@;
    let mut i: usize = 0;
    while i < padding_size
        invariant
            0 <= i <= padding_size,
            r@ =~= mid + repeat_scalars(seq![scalar_zero()], i as int),
        decreases padding_size - i,
    {
        let ghost before = r@;
        r.push(Scalar::zero());
        proof {
            lemma_repeat_push(seq![scalar_zero()], i as int);
            assert(r@ =~= before.push(scalar_zero()));
        }
        i += 1;
    }
    proof {
        assert(r@ =~= repeat_scalars(seq![scalar_zero()], padding_size as int) + f0@
            + repeat_scalars(seq![scalar_zero()], padding_size as int));
    }
    r
}

proof fn lemma_repeat_push(s: Seq<Scalar>, n: int)
    requires
        n >= 0,
    ensures
        repeat_scalars(s, n + 1) =~= repeat_scalars(s, n) + s,
    decreases n,
{
    if n > 0 {
        lemma_repeat_push(s, n - 1);
        assert(repeat_scalars(s, n + 1) == s + repeat_scalars(s, n));
        assert(repeat_scalars(s, n) == s + repeat_scalars(s, n - 1));
        assert(s + (repeat_scalars(s, n - 1) + s) =~= (s + repeat_scalars(s, n - 1)) + s);
    } else {
        assert(repeat_scalars(s, 1) == s + repeat_scalars(s, 0));
        assert(repeat_scalars(s, 0) =~= Seq::<Scalar>::empty());
        assert(repeat_scalars(s, 1) =~= s);
        assert(repeat_scalars(s, 0) + s =~= s);
    }
}

/// The decoder's learned silence row: the first phoneme class, one-hot.
pub open spec fn spec_silence_row() -> Seq<Scalar> {
    spec_onehot(0)
}

/// Pads a flattened one-hot matrix with the silence row on both sides.
pub fn make_phoneme_with_padding(phoneme: &Vec<Scalar>, padding_size: usize) -> (r: Vec<Scalar>)
    ensures
        r@ == repeat_scalars(spec_silence_row(), padding_size as int) + phoneme@ + repeat_scalars(
            spec_silence_row(),
            padding_size as int,
        ),
{
    let mut r: Vec<Scalar> = Vec::new();
    let mut i: usize = 0;
    while i < padding_size
        invariant
            0 <= i <= padding_size,
            r@ =~= repeat_scalars(spec_silence_row(), i as int),
        decreases padding_size - i,
    {
        let ghost before = r@;
        push_silence_row(&mut r);
        proof {
            lemma_repeat_push(spec_silence_row(), i as int);
            assert(r@ =~= before + spec_silence_row());
        }
        i += 1;
    }
    let ghost head = r@;
    let np = phoneme.len();
    let mut i: usize = 0;
    while i < np
        invariant
            0 <= i <= np,
            np == phoneme@.len(),
            r@ =~= head + phoneme@.take(i as int),
        decreases np - i,
    {
        let ghost before = r@;
        r.push(phoneme[i]);
        proof {
            assert(r@ =~= before.push(phoneme@[i as int]));
        }
        i += 1;
    }
    proof {
        assert(phoneme@.take(np as int) =~= phoneme@);
    }
    let ghost mid = r@;
    let mut i: usize = 0;
    while i < padding_size
        invariant
            0 <= i <= padding_size,
            r@ =~= mid + repeat_scalars(spec_silence_row(), i as int),
        decreases padding_size - i,
    {
        let ghost before = r@;
        push_silence_row(&mut r);
        proof {
            lemma_repeat_push(spec_silence_row(), i as int);
            assert(r@ =~= before + spec_silence_row());
        }
        i += 1;
    }
    proof {
        assert(r@ =~= repeat_scalars(spec_silence_row(), padding_size as int) + phoneme@
            + repeat_scalars(spec_silence_row(), padding_size as int));
    }
    r
}

/// Appends one silence row.
fn push_silence_row(r: &mut Vec<Scalar>)
    ensures
        final(r)@ == old(r)@ + spec_silence_row(),
{
    let ghost base = r@;
    let mut j: usize = 0;
    while j < NUM_PHONEME
        invariant
            0 <= j <= NUM_PHONEME,
            r@ =~= base + spec_silence_row().take(j as int),
        decreases NUM_PHONEME - j,
    {
        let ghost before = r@;
        let v: Scalar = if j == 0 {
            Scalar::one()
        } else {
            Scalar::zero()
        };
        r.push(v);
        proof {
            assert(r@ =~= before.push(spec_silence_row()[j as int]));
            assert(r@ =~= base + spec_silence_row().take(j + 1));
        }
        j += 1;
    }
    proof {
        assert(spec_silence_row().take(NUM_PHONEME as int) =~= spec_silence_row());
        assert(r@ =~= base + spec_silence_row());
    }
}

/// Cuts the padding's worth of samples from both ends of the decoder's
/// output; the remainder is the final signal.
pub fn trim_padding_from_output(output: Vec<Scalar>, padding_f0_size: usize) -> (r: Vec<Scalar>)
    requires
        padding_f0_size * FRAME_HOP * 2 <= output@.len(),
    ensures
        r@ == output@.subrange(
            padding_f0_size * FRAME_HOP as int,
            output@.len() - padding_f0_size * FRAME_HOP,
        ),
{
    let len = output.len();
    let padding_sampling_size = padding_f0_size * FRAME_HOP;
    let mut r: Vec<Scalar> = Vec::new();
    let mut i: usize = padding_sampling_size;
    while i < len - padding_sampling_size
        invariant
            padding_sampling_size == padding_f0_size * FRAME_HOP,
            2 * padding_sampling_size <= len,
            len == output@.len(),
            padding_sampling_size <= i <= len - padding_sampling_size,
            r@ =~= output@.subrange(padding_sampling_size as int, i as int),
        decreases len - padding_sampling_size - i,
    {
        let ghost before = r@;
        r.push(output[i]);
        proof {
            assert(r@ =~= before.push(output@[i as int]));
            assert(r@ =~= output@.subrange(padding_sampling_size as int, i + 1));
        }
        i += 1;
    }
    r
}

/// Trimming removes exactly the padding's worth of samples from each end:
/// what remains is the decoder's output minus twice the padding.
pub proof fn lemma_trim_round_trip(output: Seq<Scalar>, padding_f0_size: int, r: Seq<Scalar>)
    requires
        padding_f0_size >= 0,
        2 * padding_f0_size * FRAME_HOP <= output.len(),
        r == output.subrange(
            padding_f0_size * FRAME_HOP as int,
            output.len() - padding_f0_size * FRAME_HOP,
        ),
    ensures
        r.len() == output.len() - 2 * padding_f0_size * FRAME_HOP,
{
}

/// The interrogative extension adds exactly one mora: a vowel-only repeat
/// of the final vowel at the fixed length, carrying the raised pitch, and
/// fires exactly for an interrogative phrase whose final mora is voiced.
pub proof fn lemma_interrogative_extension(ap: AccentPhraseModelView, bumped: Scalar)
    ensures
        spec_upspeak_applies(ap) ==> {
            let r = spec_adjusted_phrase(ap, bumped);
            &&& r.moras.len() == ap.moras.len() + 1
            &&& r.moras.take(ap.moras.len() as int) == ap.moras
            &&& r.moras.last().consonant is None
            &&& r.moras.last().consonant_length is None
            &&& r.moras.last().vowel == ap.moras.last().vowel
            &&& r.moras.last().vowel_length == Scalar { bits: FIX_VOWEL_LENGTH_BITS }
            &&& r.moras.last().pitch == bumped
        },
        !spec_upspeak_applies(ap) ==> spec_adjusted_phrase(ap, bumped) == ap,
{
    if spec_upspeak_applies(ap) {
        let r = spec_adjusted_phrase(ap, bumped);
        assert(r.moras.take(ap.moras.len() as int) =~= ap.moras);
    }
}

} // verus!
