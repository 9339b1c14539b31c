use vstd::prelude::*;
use vstd::string::StringExecFns;

use crate::error::EngineError;
use crate::label::Phoneme;
use crate::label::PhonemeView;
use crate::mora_text::mora_to_text;
use crate::mora_text::spec_mora_to_text;
use crate::scalar::scalar_zero;
use crate::scalar::Scalar;
use crate::structure::spec_utterance;
use crate::structure::utterance_input_ok;
use crate::structure::AccentPhraseView;
use crate::structure::BreathGroupView;
use crate::structure::MoraView;
use crate::structure::Utterance;
use crate::structure::UtteranceView;

verus! {

// The model-facing flattening of the linguistic structure.  Length and
// pitch fields start at the zero sentinel and are filled in by the later
// pipeline stages; a synthetic pause mora closes every breath group but
// the utterance's last.

/// One mora as the numeric pipeline sees it.
pub struct MoraModel {
    pub text: String,
    pub consonant: Option<String>,
    pub consonant_length: Option<Scalar>,
    pub vowel: String,
    pub vowel_length: Scalar,
    pub pitch: Scalar,
}

#[verifier::ext_equal]
pub struct MoraModelView {
    pub text: Seq<char>,
    pub consonant: Option<Seq<char>>,
    pub consonant_length: Option<Scalar>,
    pub vowel: Seq<char>,
    pub vowel_length: Scalar,
    pub pitch: Scalar,
}

impl View for MoraModel {
    type V = MoraModelView;

    open spec fn view(&self) -> MoraModelView {
        MoraModelView {
            text: self.text@,
            consonant: self.consonant.deep_view(),
            consonant_length: self.consonant_length,
            vowel: self.vowel@,
            vowel_length: self.vowel_length,
            pitch: self.pitch,
        }
    }
}

impl DeepView for MoraModel {
    type V = MoraModelView;

    open spec fn deep_view(&self) -> MoraModelView {
        self@
    }
}

impl Clone for MoraModel {
    fn clone(&self) -> (r: Self)
        ensures
            r == *self,
    {
        let consonant = match &self.consonant {
            Some(c) => Some(c.clone()),
            None => None,
        };
        let r = MoraModel {
            text: self.text.clone(),
            consonant,
            consonant_length: self.consonant_length,
            vowel: self.vowel.clone(),
            vowel_length: self.vowel_length,
            pitch: self.pitch,
        };
        proof {
            assert(r =~= *self);
        }
        r
    }
}

/// One accent phrase as the numeric pipeline sees it.
pub struct AccentPhraseModel {
    pub moras: Vec<MoraModel>,
    pub accent: usize,
    pub pause_mora: Option<MoraModel>,
    pub is_interrogative: bool,
}

#[verifier::ext_equal]
pub struct AccentPhraseModelView {
    pub moras: Seq<MoraModelView>,
    pub accent: usize,
    pub pause_mora: Option<MoraModelView>,
    pub is_interrogative: bool,
}

impl View for AccentPhraseModel {
    type V = AccentPhraseModelView;

    open spec fn view(&self) -> AccentPhraseModelView {
        AccentPhraseModelView {
            moras: self.moras.deep_view(),
            accent: self.accent,
            pause_mora: self.pause_mora.deep_view(),
            is_interrogative: self.is_interrogative,
        }
    }
}

impl DeepView for AccentPhraseModel {
    type V = AccentPhraseModelView;

    open spec fn deep_view(&self) -> AccentPhraseModelView {
        self@
    }
}

/// The concatenated phoneme symbols of a mora.
pub open spec fn mora_symbol_concat(m: MoraView) -> Seq<char> {
    match m.consonant {
        Some(c) => c.p3 + m.vowel.p3,
        None => m.vowel.p3,
    }
}

/// The model-facing value of one linguistic mora: its display text, its
/// phoneme symbols, and every numeric field at the zero sentinel.
pub open spec fn spec_mora_model(m: MoraView) -> MoraModelView {
    MoraModelView {
        text: spec_mora_to_text(mora_symbol_concat(m)),
        consonant: match m.consonant {
            Some(c) => Some(c.p3),
            None => None,
        },
        consonant_length: match m.consonant {
            Some(_) => Some(scalar_zero()),
            None => None,
        },
        vowel: m.vowel.p3,
        vowel_length: scalar_zero(),
        pitch: scalar_zero(),
    }
}

/// The synthetic pause mora appended where a breath group ends before
/// another follows: a comma glyph over the pause symbol, zero throughout.
pub open spec fn spec_pause_mora() -> MoraModelView {
    MoraModelView {
        text: "、"@,
        consonant: None,
        consonant_length: None,
        vowel: "pau"@,
        vowel_length: scalar_zero(),
        pitch: scalar_zero(),
    }
}

/// The model-facing value of one accent phrase, with the synthetic pause
/// mora exactly when `with_pause` holds.
pub open spec fn spec_accent_phrase_model(ap: AccentPhraseView, with_pause: bool) -> AccentPhraseModelView {
    AccentPhraseModelView {
        moras: Seq::new(ap.moras.len(), |k: int| spec_mora_model(ap.moras[k])),
        accent: ap.accent,
        pause_mora: if with_pause {
            Some(spec_pause_mora())
        } else {
            None
        },
        is_interrogative: ap.is_interrogative,
    }
}

/// The model-facing values of one breath group's accent phrases; the last
/// phrase carries the pause mora unless the group closes the utterance.
pub open spec fn spec_breath_group_models(bg: BreathGroupView, last_bg: bool) -> Seq<AccentPhraseModelView> {
    Seq::new(
        bg.accent_phrases.len(),
        |j: int|
            spec_accent_phrase_model(
                bg.accent_phrases[j],
                !last_bg && j == bg.accent_phrases.len() - 1,
            ),
    )
}

/// The model-facing values of the breath groups from `i` on, in document
/// order.
pub open spec fn spec_models_from(bgs: Seq<BreathGroupView>, i: int) -> Seq<AccentPhraseModelView>
    decreases bgs.len() - i when 0 <= i <= bgs.len()
{
    if i >= bgs.len() {
        Seq::empty()
    } else {
        spec_breath_group_models(bgs[i], i == bgs.len() - 1) + spec_models_from(bgs, i + 1)
    }
}

/// What parsing a label sequence yields when every label parses.
pub open spec fn spec_parse_labels(ls: Seq<Seq<char>>) -> Option<Seq<PhonemeView>> {
    if forall|i: int| 0 <= i < ls.len() ==> crate::label::spec_parse_label(#[trigger] ls[i]) is Some {
        Some(Seq::new(ls.len(), |i: int| crate::label::spec_parse_label(ls[i])->Some_0))
    } else {
        None
    }
}

/// What the whole front half of the pipeline yields for a label sequence:
/// the flattened accent-phrase models of its utterance.
pub open spec fn spec_create_accent_phrases(ls: Seq<Seq<char>>) -> Result<Seq<AccentPhraseModelView>, EngineError> {
    match spec_parse_labels(ls) {
        None => Err(EngineError::LabelParse),
        Some(ps) => match spec_utterance(ps) {
            Err(e) => Err(e),
            Ok(u) => Ok(spec_models_from(u.breath_groups, 0)),
        },
    }
}

/// Builds one model-facing mora.
fn build_mora_model(m: &crate::structure::Mora) -> (r: MoraModel)
    ensures
        r@ == spec_mora_model(m@),
{
    let symbol: String = match &m.consonant {
        Some(c) => c.p3.clone().concat(m.vowel.p3.as_str()),
        None => m.vowel.p3.clone(),
    };
    proof {
        assert(symbol@ == mora_symbol_concat(m@));
    }
    let (consonant, consonant_length) = match &m.consonant {
        Some(c) => (Some(c.p3.clone()), Some(Scalar::zero())),
        None => (None, None),
    };
    let r = MoraModel {
        text: mora_to_text(symbol),
        consonant,
        consonant_length,
        vowel: m.vowel.p3.clone(),
        vowel_length: Scalar::zero(),
        pitch: Scalar::zero(),
    };
    proof {
        assert(r@ =~= spec_mora_model(m@));
    }
    r
}

/// Builds the synthetic pause mora.
fn build_pause_mora() -> (r: MoraModel)
    ensures
        r@ == spec_pause_mora(),
{
    let r = MoraModel {
        text: String::from_str("、"),
        consonant: None,
        consonant_length: None,
        vowel: String::from_str("pau"),
        vowel_length: Scalar::zero(),
        pitch: Scalar::zero(),
    };
    proof {
        assert(r@ =~= spec_pause_mora());
    }
    r
}

/// Parses every label and flattens the resulting utterance into the
/// model-facing accent-phrase sequence.  A label that does not parse
/// aborts the whole utterance.
pub fn create_accent_phrases(labels: &Vec<String>) -> (r: Result<Vec<AccentPhraseModel>, EngineError>)
    requires
        spec_parse_labels(labels.deep_view()) is Some ==> utterance_input_ok(
            spec_parse_labels(labels.deep_view())->Some_0,
        ),
    ensures
        r is Ok <==> spec_create_accent_phrases(labels.deep_view()) is Ok,
        r is Ok ==> r->Ok_0.deep_view() == spec_create_accent_phrases(labels.deep_view())->Ok_0,
        r is Err ==> r->Err_0 == spec_create_accent_phrases(labels.deep_view())->Err_0,
{
    let ghost ls = labels.deep_view();
    let n = labels.len();
    let mut phonemes: Vec<Phoneme> = Vec::new();
    let mut i: usize = 0;
    while i < n
        invariant
            0 <= i <= n,
            n == ls.len(),
            ls == labels.deep_view(),
            phonemes.deep_view().len() == i,
            forall|k: int| 0 <= k < i ==> crate::label::spec_parse_label(#[trigger] ls[k]) is Some,
            forall|k: int| 0 <= k < i ==> phonemes.deep_view()[k] == crate::label::spec_parse_label(
                #[trigger] ls[k],
            )->Some_0,
        decreases n - i,
    {
        proof {
            assert(labels@[i as int]@ == ls[i as int]);
        }
        match Phoneme::from_label(labels[i].as_str()) {
            Ok(p) => {
                phonemes.push(p);
            },
            Err(_) => {
                proof {
                    assert(crate::label::spec_parse_label(ls[i as int]) is None);
                    assert(spec_parse_labels(ls) is None);
                }
                return Err(EngineError::LabelParse);
            },
        }
        i += 1;
    }
    proof {
        assert(spec_parse_labels(ls) is Some);
        assert(phonemes.deep_view() =~= spec_parse_labels(ls)->Some_0);
    }

    let utterance = match Utterance::from_phonemes(phonemes) {
        Ok(u) => u,
        Err(e) => {
            return Err(e);
        },
    };
    let ghost u = spec_utterance(spec_parse_labels(ls)->Some_0)->Ok_0;
    proof {
        assert(utterance@ == u);
    }

    let nbg = utterance.breath_groups.len();
    let mut models: Vec<AccentPhraseModel> = Vec::new();
    let mut bi: usize = 0;
    proof {
        assert(models.deep_view() =~= Seq::<AccentPhraseModelView>::empty());
    }
    while bi < nbg
        invariant
            0 <= bi <= nbg,
            nbg == u.breath_groups.len(),
            utterance@ == u,
            models.deep_view() + spec_models_from(u.breath_groups, bi as int) =~= spec_models_from(
                u.breath_groups,
                0,
            ),
        decreases nbg - bi,
    {
        let ghost bg = u.breath_groups[bi as int];
        let ghost last_bg = bi as int == u.breath_groups.len() - 1;
        let ghost before = models.deep_view();
        let naps = utterance.breath_groups[bi].accent_phrases.len();
        let mut j: usize = 0;
        while j < naps
            invariant
                0 <= j <= naps,
                0 <= bi < nbg,
                nbg == u.breath_groups.len(),
                utterance@ == u,
                bg == u.breath_groups[bi as int],
                last_bg == (bi as int == u.breath_groups.len() - 1),
                naps == bg.accent_phrases.len(),
                models.deep_view() =~= before + Seq::new(
                    j as nat,
                    |x: int|
                        spec_accent_phrase_model(
                            bg.accent_phrases[x],
                            !last_bg && x == bg.accent_phrases.len() - 1,
                        ),
                ),
            decreases naps - j,
        {
            let ghost ap = bg.accent_phrases[j as int];
            let phrase = &utterance.breath_groups[bi].accent_phrases[j];
            proof {
                assert(phrase@ == ap);
            }
            let nm = phrase.moras.len();
            let mut moras: Vec<MoraModel> = Vec::new();
            let mut k: usize = 0;
            proof {
                assert(moras.deep_view() =~= Seq::<MoraModelView>::empty());
            }
            while k < nm
                invariant
                    0 <= k <= nm,
                    0 <= j < naps,
                    0 <= bi < nbg,
                    utterance@ == u,
                    nbg == u.breath_groups.len(),
                    bg == u.breath_groups[bi as int],
                    ap == bg.accent_phrases[j as int],
                    naps == bg.accent_phrases.len(),
                    nm == ap.moras.len(),
                    moras.deep_view() =~= Seq::new(
                        k as nat,
                        |x: int| spec_mora_model(ap.moras[x]),
                    ),
                decreases nm - k,
            {
                let m = build_mora_model(&utterance.breath_groups[bi].accent_phrases[j].moras[k]);
                proof {
                    assert(utterance.breath_groups@[bi as int]@ == bg);
                    assert(utterance.breath_groups@[bi as int].accent_phrases@[j as int]@ == ap);
                    assert(utterance.breath_groups@[bi as int].accent_phrases@[j as int].moras@[k as int]@
                        == ap.moras[k as int]);
                    assert(m@ == spec_mora_model(ap.moras[k as int]));
                }
                let ghost old_vec = moras@;
                let ghost old_dv = moras.deep_view();
                moras.push(m);
                proof {
                    assert(moras@ == old_vec.push(m));
                    assert(moras@.len() == old_vec.len() + 1);
                    assert(old_dv.len() == old_vec.len());
                    assert(old_dv.len() == k);
                    let new_dv = moras.deep_view();
                    assert(new_dv.len() == k + 1);
                    assert forall|x: int| 0 <= x < k + 1 implies new_dv[x] == spec_mora_model(
                        ap.moras[x],
                    ) by {
                        if x < k {
                            assert(new_dv[x] == old_dv[x]);
                        } else {
                            assert(moras@[x] == m);
                        }
                    }
                    assert(moras.deep_view() =~= Seq::new(
                        (k + 1) as nat,
                        |x: int| spec_mora_model(ap.moras[x]),
                    ));
                }
                k += 1;
            }
            let with_pause = bi != nbg - 1 && j == naps - 1;
            let pause_mora = if with_pause {
                Some(build_pause_mora())
            } else {
                None
            };
            let model = AccentPhraseModel {
                moras,
                accent: phrase.accent,
                pause_mora,
                is_interrogative: phrase.is_interrogative,
            };
            let ghost old_vec = models@;
            let ghost old_dv = models.deep_view();
            models.push(model);
            proof {
                assert(model@ =~= spec_accent_phrase_model(
                    ap,
                    !last_bg && j as int == bg.accent_phrases.len() - 1,
                ));
                assert(models@ == old_vec.push(model));
                assert(old_dv.len() == old_vec.len());
                let new_dv = models.deep_view();
                assert(new_dv.len() == old_dv.len() + 1);
                assert forall|x: int| 0 <= x < new_dv.len() implies new_dv[x] == (before
                    + Seq::new(
                    (j + 1) as nat,
                    |y: int|
                        spec_accent_phrase_model(
                            bg.accent_phrases[y],
                            !last_bg && y == bg.accent_phrases.len() - 1,
                        ),
                ))[x] by {
                    if x < old_dv.len() {
                        assert(new_dv[x] == old_dv[x]);
                    } else {
                        assert(models@[x] == model);
                    }
                }
                assert(models.deep_view() =~= before + Seq::new(
                    (j + 1) as nat,
                    |x: int|
                        spec_accent_phrase_model(
                            bg.accent_phrases[x],
                            !last_bg && x == bg.accent_phrases.len() - 1,
                        ),
                ));
            }
            j += 1;
        }
        proof {
            assert(Seq::new(
                naps as nat,
                |x: int|
                    spec_accent_phrase_model(
                        bg.accent_phrases[x],
                        !last_bg && x == bg.accent_phrases.len() - 1,
                    ),
            ) =~= spec_breath_group_models(bg, last_bg));
            assert(models.deep_view() =~= before + spec_breath_group_models(bg, last_bg));
            assert(models.deep_view() + spec_models_from(u.breath_groups, bi + 1)
                =~= spec_models_from(u.breath_groups, 0));
        }
        bi += 1;
    }
    proof {
        assert(models.deep_view() =~= spec_models_from(u.breath_groups, 0));
    }
    Ok(models)
}

/// Checks the structural condition [`create_accent_phrases`] asks of its
/// labels: when every label parses, no accent-phrase run may open on the
/// sentinel mora-position.
pub fn check_accent_phrase_input(labels: &Vec<String>) -> (b: bool)
    ensures
        b == (spec_parse_labels(labels.deep_view()) is Some ==> utterance_input_ok(
            spec_parse_labels(labels.deep_view())->Some_0,
        )),
{
    let ghost ls = labels.deep_view();
    let n = labels.len();
    let mut phonemes: Vec<Phoneme> = Vec::new();
    let mut i: usize = 0;
    while i < n
        invariant
            0 <= i <= n,
            n == ls.len(),
            ls == labels.deep_view(),
            phonemes.deep_view().len() == i,
            forall|k: int| 0 <= k < i ==> crate::label::spec_parse_label(#[trigger] ls[k]) is Some,
            forall|k: int| 0 <= k < i ==> phonemes.deep_view()[k] == crate::label::spec_parse_label(
                #[trigger] ls[k],
            )->Some_0,
        decreases n - i,
    {
        proof {
            assert(labels@[i as int]@ == ls[i as int]);
        }
        match Phoneme::from_label(labels[i].as_str()) {
            Ok(p) => {
                phonemes.push(p);
            },
            Err(_) => {
                proof {
                    assert(crate::label::spec_parse_label(ls[i as int]) is None);
                    assert(spec_parse_labels(ls) is None);
                }
                return true;
            },
        }
        i += 1;
    }
    proof {
        assert(spec_parse_labels(ls) is Some);
        assert(phonemes.deep_view() =~= spec_parse_labels(ls)->Some_0);
    }
    crate::structure::check_utterance_input(&phonemes)
}

} // verus!
