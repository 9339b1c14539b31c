use vstd::prelude::*;

use crate::error::EngineError;
use crate::label::Phoneme;
use crate::label::PhonemeView;
use crate::text::parse_usize;
use crate::text::spec_parse_usize;
use crate::text::str_equal;

verus! {

// Phonemes are grouped into moras by their mora-position field, moras into
// accent phrases, accent phrases into breath groups by contiguous runs of
// equal breath-group fields, and breath groups into the utterance by pause
// phonemes.  Every grouping below is stated as a small-step function over
// the phoneme views, and each builder returns exactly what its grouping
// function says.

/// The minimal rhythmic unit: an optional consonant phoneme plus a
/// mandatory vowel phoneme.
pub struct Mora {
    pub consonant: Option<Phoneme>,
    pub vowel: Phoneme,
}

#[verifier::ext_equal]
pub struct MoraView {
    pub consonant: Option<PhonemeView>,
    pub vowel: PhonemeView,
}

impl View for Mora {
    type V = MoraView;

    open spec fn view(&self) -> MoraView {
        MoraView { consonant: self.consonant.deep_view(), vowel: self.vowel@ }
    }
}

impl DeepView for Mora {
    type V = MoraView;

    open spec fn deep_view(&self) -> MoraView {
        self@
    }
}

/// The phonemes of a mora in order: the consonant, if any, then the vowel.
pub open spec fn spec_mora_phonemes(m: MoraView) -> Seq<PhonemeView> {
    match m.consonant {
        Some(c) => seq![c, m.vowel],
        None => seq![m.vowel],
    }
}

impl Mora {
    /// The phonemes of the mora in order: the consonant, if any, then the
    /// vowel.
    pub fn phonemes(&self) -> (r: Vec<Phoneme>)
        ensures
            r.deep_view() == spec_mora_phonemes(self@),
    {
        let mut r: Vec<Phoneme> = Vec::new();
        match &self.consonant {
            Some(c) => {
                r.push(c.clone());
            },
            None => {},
        }
        r.push(self.vowel.clone());
        proof {
            assert(r.deep_view() =~= spec_mora_phonemes(self@));
        }
        r
    }
}

/// How many phonemes mora segmentation looks at: everything before the
/// first phoneme whose mora-position field holds the sentinel `49`, which
/// stops segmentation for the phrase (a defined truncation, not an error).
pub open spec fn stop_index(ps: Seq<PhonemeView>) -> int
    decreases ps.len(),
{
    if ps.len() == 0 {
        0
    } else if ps[0].a2 == "49"@ {
        0
    } else {
        1 + stop_index(ps.drop_first())
    }
}

pub proof fn lemma_stop_index(ps: Seq<PhonemeView>)
    ensures
        0 <= stop_index(ps) <= ps.len(),
        forall|j: int| 0 <= j < stop_index(ps) ==> (#[trigger] ps[j]).a2 != "49"@,
        stop_index(ps) < ps.len() ==> ps[stop_index(ps)].a2 == "49"@,
    decreases ps.len(),
{
    if ps.len() > 0 && ps[0].a2 != "49"@ {
        lemma_stop_index(ps.drop_first());
        assert forall|j: int| 0 <= j < stop_index(ps) implies (#[trigger] ps[j]).a2 != "49"@ by {
            if j > 0 {
                assert(ps.drop_first()[j - 1] == ps[j]);
            }
        }
        if stop_index(ps) < ps.len() {
            assert(ps.drop_first()[stop_index(ps) - 1] == ps[stop_index(ps)]);
        }
    }
}

/// One step of mora segmentation over the truncated phoneme run `t`: the
/// phoneme at `i` joins the working buffer; a mora boundary falls after it
/// when it is the last phoneme or the next phoneme's mora-position field
/// differs; a flushed buffer of one phoneme is a vowel-only mora, of two a
/// consonant-vowel mora, and any longer buffer is an error.
pub open spec fn group_step(
    t: Seq<PhonemeView>,
    i: int,
    buf: Seq<PhonemeView>,
    acc: Seq<MoraView>,
) -> Result<Seq<MoraView>, EngineError>
    decreases t.len() - i when 0 <= i <= t.len()
{
    if i >= t.len() {
        Ok(acc)
    } else {
        let buf2 = buf.push(t[i]);
        if i + 1 == t.len() || t[i].a2 != t[i + 1].a2 {
            if buf2.len() == 1 {
                group_step(t, i + 1, Seq::empty(), acc.push(MoraView { consonant: None, vowel: buf2[0] }))
            } else if buf2.len() == 2 {
                group_step(
                    t,
                    i + 1,
                    Seq::empty(),
                    acc.push(MoraView { consonant: Some(buf2[0]), vowel: buf2[1] }),
                )
            } else {
                Err(EngineError::TooLongMora)
            }
        } else {
            group_step(t, i + 1, buf2, acc)
        }
    }
}

/// The moras that segmentation yields for one accent phrase.
pub open spec fn spec_split_moras(ps: Seq<PhonemeView>) -> Result<Seq<MoraView>, EngineError> {
    group_step(ps.take(stop_index(ps)), 0, Seq::empty(), Seq::empty())
}

proof fn lemma_group_step_grows(
    t: Seq<PhonemeView>,
    i: int,
    buf: Seq<PhonemeView>,
    acc: Seq<MoraView>,
)
    requires
        0 <= i <= t.len(),
        group_step(t, i, buf, acc) is Ok,
    ensures
        group_step(t, i, buf, acc)->Ok_0.len() >= acc.len() + if i < t.len() {
            1int
        } else {
            0int
        },
    decreases t.len() - i,
{
    if i < t.len() {
        let buf2 = buf.push(t[i]);
        if i + 1 == t.len() || t[i].a2 != t[i + 1].a2 {
            if buf2.len() == 1 {
                lemma_group_step_grows(
                    t,
                    i + 1,
                    Seq::empty(),
                    acc.push(MoraView { consonant: None, vowel: buf2[0] }),
                );
            } else if buf2.len() == 2 {
                lemma_group_step_grows(
                    t,
                    i + 1,
                    Seq::empty(),
                    acc.push(MoraView { consonant: Some(buf2[0]), vowel: buf2[1] }),
                );
            }
        } else {
            lemma_group_step_grows(t, i + 1, buf2, acc);
        }
    }
}

/// A prosodic unit of one or more moras sharing one pitch-accent pattern.
pub struct AccentPhrase {
    pub moras: Vec<Mora>,
    /// One-based position of the accented mora, clamped down to the mora
    /// count when the label claims a later position.
    pub accent: usize,
    pub is_interrogative: bool,
}

#[verifier::ext_equal]
pub struct AccentPhraseView {
    pub moras: Seq<MoraView>,
    pub accent: usize,
    pub is_interrogative: bool,
}

impl View for AccentPhrase {
    type V = AccentPhraseView;

    open spec fn view(&self) -> AccentPhraseView {
        AccentPhraseView {
            moras: self.moras.deep_view(),
            accent: self.accent,
            is_interrogative: self.is_interrogative,
        }
    }
}

impl DeepView for AccentPhrase {
    type V = AccentPhraseView;

    open spec fn deep_view(&self) -> AccentPhraseView {
        self@
    }
}

/// What one accent phrase is for a phoneme run: its moras from
/// segmentation, its accent index read from the first mora's vowel and
/// clamped down to the mora count, and its interrogative flag read from the
/// last mora's vowel.
pub open spec fn spec_accent_phrase(ps: Seq<PhonemeView>) -> Result<
    AccentPhraseView,
    EngineError,
> {
    match spec_split_moras(ps) {
        Err(e) => Err(e),
        Ok(moras) => match spec_parse_usize(moras[0].vowel.f2) {
            None => Err(EngineError::InvalidMora),
            Some(a) => Ok(
                AccentPhraseView {
                    moras,
                    accent: if a > moras.len() {
                        moras.len() as usize
                    } else {
                        a
                    },
                    is_interrogative: moras.last().vowel.f3 == "1"@,
                },
            ),
        },
    }
}

impl AccentPhrase {
    /// Segments one run of phonemes into moras and assembles the accent
    /// phrase around them.
    pub fn from_phonemes(phonemes: Vec<Phoneme>) -> (r: Result<AccentPhrase, EngineError>)
        requires
            phonemes.deep_view().len() > 0,
            phonemes.deep_view()[0].a2 != "49"@,
        ensures
            r is Ok <==> spec_accent_phrase(phonemes.deep_view()) is Ok,
            r is Ok ==> r->Ok_0@ == spec_accent_phrase(phonemes.deep_view())->Ok_0,
            r is Err ==> r->Err_0 == spec_accent_phrase(phonemes.deep_view())->Err_0,
    {
        let ghost dv = phonemes.deep_view();
        proof {
            lemma_stop_index(dv);
        }
        let ghost t = dv.take(stop_index(dv));
        let n = phonemes.len();

        // Find where segmentation stops: the first sentinel mora-position.
        let mut istop: usize = 0;
        while istop < n && !str_equal(phonemes[istop].a2.as_str(), "49")
            invariant
                0 <= istop <= n,
                n == dv.len(),
                dv == phonemes.deep_view(),
                forall|j: int| 0 <= j < istop ==> (#[trigger] dv[j]).a2 != "49"@,
            decreases n - istop,
    {
            istop += 1;
        }
        proof {
            if istop < n {
                assert(dv[istop as int].a2 == "49"@);
                if stop_index(dv) < istop {
                    assert(dv[stop_index(dv)].a2 == "49"@);
                    assert(false);
                }
                if stop_index(dv) > istop {
                    assert(dv[istop as int].a2 != "49"@);
                    assert(false);
                }
            } else {
                if stop_index(dv) < n {
                    assert(dv[stop_index(dv)].a2 == "49"@);
                    assert(false);
                }
            }
            assert(istop == stop_index(dv));
            assert(t.len() == istop);
            assert(forall|j: int| 0 <= j < istop ==> t[j] == dv[j]);
        }

        let mut moras: Vec<Mora> = Vec::new();
        let mut buf: Vec<Phoneme> = Vec::new();
        let mut i: usize = 0;
        proof {
            assert(buf.deep_view() =~= Seq::<PhonemeView>::empty());
            assert(moras.deep_view() =~= Seq::<MoraView>::empty());
        }
        while i < istop
            invariant
                0 <= i <= istop <= n,
                n == dv.len(),
                dv == phonemes.deep_view(),
                istop == stop_index(dv),
                t == dv.take(stop_index(dv)),
                t.len() == istop,
                forall|j: int| 0 <= j < istop ==> t[j] == dv[j],
                forall|j: int| 0 <= j < istop ==> (#[trigger] dv[j]).a2 != "49"@,
                group_step(t, 0, Seq::empty(), Seq::empty()) == group_step(
                    t,
                    i as int,
                    buf.deep_view(),
                    moras.deep_view(),
                ),
            decreases istop - i,
        {
            proof {
                lemma_stop_index(dv);
            }
            let ghost old_buf = buf.deep_view();
            let ghost old_moras = moras.deep_view();
            buf.push(phonemes[i].clone());
            proof {
                assert(buf.deep_view() =~= old_buf.push(dv[i as int]));
                assert(dv[i as int] == t[i as int]);
            }
            let boundary: bool = if i + 1 == n {
                true
            } else {
                !str_equal(phonemes[i].a2.as_str(), phonemes[i + 1].a2.as_str())
            };
            proof {
                // The spec's boundary over the truncated run agrees with the
                // one read off the full list: past the truncation point the
                // next field is the sentinel, which always differs.
                if i + 1 == istop && i + 1 < n {
                    assert(dv[i + 1].a2 == "49"@);
                    assert(dv[i as int].a2 != "49"@);
                }
            }
            if boundary {
                if buf.len() == 1 {
                    let vowel = buf.pop().unwrap();
                    moras.push(Mora { consonant: None, vowel });
                    proof {
                        assert(buf.deep_view() =~= Seq::<PhonemeView>::empty());
                        assert(moras.deep_view() =~= old_moras.push(
                            MoraView { consonant: None, vowel: old_buf.push(t[i as int])[0] },
                        ));
                    }
                } else if buf.len() == 2 {
                    let vowel = buf.pop().unwrap();
                    let consonant = buf.pop().unwrap();
                    moras.push(Mora { consonant: Some(consonant), vowel });
                    proof {
                        assert(buf.deep_view() =~= Seq::<PhonemeView>::empty());
                        let buf2 = old_buf.push(t[i as int]);
                        assert(moras.deep_view() =~= old_moras.push(
                            MoraView { consonant: Some(buf2[0]), vowel: buf2[1] },
                        ));
                    }
                } else {
                    proof {
                        assert(group_step(t, 0, Seq::empty(), Seq::empty()) == Err::<
                            Seq<MoraView>,
                            EngineError,
                        >(EngineError::TooLongMora));
                    }
                    return Err(EngineError::TooLongMora);
                }
            }
            i += 1;
        }
        proof {
            assert(group_step(t, istop as int, buf.deep_view(), moras.deep_view()) == Ok::<
                Seq<MoraView>,
                EngineError,
            >(moras.deep_view()));
            assert(spec_split_moras(dv) == Ok::<Seq<MoraView>, EngineError>(moras.deep_view()));
            assert(t.len() >= 1);
            lemma_group_step_grows(t, 0, Seq::empty(), Seq::empty());
            assert(moras.deep_view().len() >= 1);
        }

        let accent_raw = parse_usize(moras[0].vowel.f2.as_str());
        let accent_raw = match accent_raw {
            Some(a) => a,
            None => {
                return Err(EngineError::InvalidMora);
            },
        };
        // A label may claim an accent position past the phrase's mora count;
        // such an index is clamped down to the count.
        let accent = if accent_raw > moras.len() {
            moras.len()
        } else {
            accent_raw
        };
        let last = moras.len() - 1;
        let is_interrogative = str_equal(moras[last].vowel.f3.as_str(), "1");
        let r = AccentPhrase { moras, accent, is_interrogative };
        proof {
            assert(r@ =~= spec_accent_phrase(dv)->Ok_0);
        }
        Ok(r)
    }
}

/// A maximal run of accent phrases uninterrupted by a pause.
pub struct BreathGroup {
    pub accent_phrases: Vec<AccentPhrase>,
}

#[verifier::ext_equal]
pub struct BreathGroupView {
    pub accent_phrases: Seq<AccentPhraseView>,
}

impl View for BreathGroup {
    type V = BreathGroupView;

    open spec fn view(&self) -> BreathGroupView {
        BreathGroupView { accent_phrases: self.accent_phrases.deep_view() }
    }
}

impl DeepView for BreathGroup {
    type V = BreathGroupView;

    open spec fn deep_view(&self) -> BreathGroupView {
        self@
    }
}

/// One step of breath-group assembly: the phoneme at `i` joins the working
/// run; the run closes after it when it is the last phoneme or the next
/// phoneme differs in either breath-group field, and the closed run becomes
/// one accent phrase.
pub open spec fn breath_group_step(
    ps: Seq<PhonemeView>,
    i: int,
    run: Seq<PhonemeView>,
    acc: Seq<AccentPhraseView>,
) -> Result<Seq<AccentPhraseView>, EngineError>
    decreases ps.len() - i when 0 <= i <= ps.len()
{
    if i >= ps.len() {
        Ok(acc)
    } else {
        let run2 = run.push(ps[i]);
        if i + 1 == ps.len() || ps[i].i3 != ps[i + 1].i3 || ps[i].f5 != ps[i + 1].f5 {
            match spec_accent_phrase(run2) {
                Ok(ap) => breath_group_step(ps, i + 1, Seq::empty(), acc.push(ap)),
                Err(e) => Err(e),
            }
        } else {
            breath_group_step(ps, i + 1, run2, acc)
        }
    }
}

/// The accent phrases of one breath group.
pub open spec fn spec_breath_group(ps: Seq<PhonemeView>) -> Result<
    BreathGroupView,
    EngineError,
> {
    match breath_group_step(ps, 0, Seq::empty(), Seq::empty()) {
        Ok(aps) => Ok(BreathGroupView { accent_phrases: aps }),
        Err(e) => Err(e),
    }
}

/// Whether position `j` opens an accent-phrase run within the group: it is
/// the first position, or either breath-group field changes there.
pub open spec fn breath_group_run_start(ps: Seq<PhonemeView>, j: int) -> bool {
    0 <= j < ps.len() && (j == 0 || ps[j - 1].i3 != ps[j].i3 || ps[j - 1].f5 != ps[j].f5)
}

/// The phonemes a breath group can be built from: no accent-phrase run may
/// open on the sentinel mora-position, which would leave that phrase
/// without a single mora.
pub open spec fn breath_group_input_ok(ps: Seq<PhonemeView>) -> bool {
    forall|j: int| breath_group_run_start(ps, j) ==> (#[trigger] ps[j]).a2 != "49"@
}

impl BreathGroup {
    /// Splits one pause-free run of phonemes into accent phrases at changes
    /// of the breath-group fields.
    pub fn from_phonemes(phonemes: Vec<Phoneme>) -> (r: Result<BreathGroup, EngineError>)
        requires
            breath_group_input_ok(phonemes.deep_view()),
        ensures
            r is Ok <==> spec_breath_group(phonemes.deep_view()) is Ok,
            r is Ok ==> r->Ok_0@ == spec_breath_group(phonemes.deep_view())->Ok_0,
            r is Err ==> r->Err_0 == spec_breath_group(phonemes.deep_view())->Err_0,
    {
        let ghost dv = phonemes.deep_view();
        let n = phonemes.len();
        let mut accent_phrases: Vec<AccentPhrase> = Vec::new();
        let mut run: Vec<Phoneme> = Vec::new();
        let ghost mut rs: int = 0;
        let mut i: usize = 0;
        proof {
            assert(run.deep_view() =~= dv.subrange(0, 0));
            assert(run.deep_view() =~= Seq::<PhonemeView>::empty());
            assert(accent_phrases.deep_view() =~= Seq::<AccentPhraseView>::empty());
        }
        while i < n
            invariant
                0 <= i <= n,
                n == dv.len(),
                dv == phonemes.deep_view(),
                breath_group_input_ok(dv),
                0 <= rs <= i,
                run.deep_view() =~= dv.subrange(rs, i as int),
                rs < n ==> breath_group_run_start(dv, rs),
                rs == i ==> run.deep_view().len() == 0,
                breath_group_step(dv, 0, Seq::empty(), Seq::empty()) == breath_group_step(
                    dv,
                    i as int,
                    run.deep_view(),
                    accent_phrases.deep_view(),
                ),
            decreases n - i,
        {
            let ghost old_run = run.deep_view();
            let ghost old_acc = accent_phrases.deep_view();
            run.push(phonemes[i].clone());
            proof {
                assert(run.deep_view() =~= old_run.push(dv[i as int]));
                assert(run.deep_view() =~= dv.subrange(rs, i + 1));
            }
            let boundary: bool = if i + 1 == n {
                true
            } else {
                !(phonemes[i].i3 == phonemes[i + 1].i3 && phonemes[i].f5 == phonemes[i + 1].f5)
            };
            if boundary {
                proof {
                    assert(breath_group_run_start(dv, rs));
                    assert(dv[rs].a2 != "49"@);
                    assert(run.deep_view()[0] == dv[rs]);
                    assert(run.deep_view().len() > 0);
                }
                let run_vec = run;
                run = Vec::new();
                match AccentPhrase::from_phonemes(run_vec) {
                    Ok(ap) => {
                        accent_phrases.push(ap);
                        proof {
                            assert(run.deep_view() =~= Seq::<PhonemeView>::empty());
                            assert(accent_phrases.deep_view() =~= old_acc.push(
                                spec_accent_phrase(old_run.push(dv[i as int]))->Ok_0,
                            ));
                            rs = i + 1;
                            assert(breath_group_step(dv, i as int, old_run, old_acc)
                                == breath_group_step(
                                dv,
                                i + 1,
                                run.deep_view(),
                                accent_phrases.deep_view(),
                            ));
                        }
                    },
                    Err(e) => {
                        return Err(e);
                    },
                }
            }
            i += 1;
        }
        let r = BreathGroup { accent_phrases };
        proof {
            assert(r@ =~= spec_breath_group(dv)->Ok_0);
        }
        Ok(r)
    }
}

/// The full breath-group sequence for one synthesis request.
pub struct Utterance {
    pub breath_groups: Vec<BreathGroup>,
}

#[verifier::ext_equal]
pub struct UtteranceView {
    pub breath_groups: Seq<BreathGroupView>,
}

impl View for Utterance {
    type V = UtteranceView;

    open spec fn view(&self) -> UtteranceView {
        UtteranceView { breath_groups: self.breath_groups.deep_view() }
    }
}

impl DeepView for Utterance {
    type V = UtteranceView;

    open spec fn deep_view(&self) -> UtteranceView {
        self@
    }
}

/// One step of utterance assembly: a pause phoneme closes the working run,
/// which becomes one breath group when nonempty and is otherwise skipped;
/// pause phonemes themselves are dropped.  A trailing run that no pause
/// closes is dropped with it.
pub open spec fn utterance_step(
    ps: Seq<PhonemeView>,
    i: int,
    run: Seq<PhonemeView>,
    acc: Seq<BreathGroupView>,
) -> Result<Seq<BreathGroupView>, EngineError>
    decreases ps.len() - i when 0 <= i <= ps.len()
{
    if i >= ps.len() {
        Ok(acc)
    } else if ps[i].f1 == "xx"@ {
        if run.len() > 0 {
            match spec_breath_group(run) {
                Ok(bg) => utterance_step(ps, i + 1, Seq::empty(), acc.push(bg)),
                Err(e) => Err(e),
            }
        } else {
            utterance_step(ps, i + 1, run, acc)
        }
    } else {
        utterance_step(ps, i + 1, run.push(ps[i]), acc)
    }
}

/// The breath groups of the utterance.
pub open spec fn spec_utterance(ps: Seq<PhonemeView>) -> Result<UtteranceView, EngineError> {
    match utterance_step(ps, 0, Seq::empty(), Seq::empty()) {
        Ok(bgs) => Ok(UtteranceView { breath_groups: bgs }),
        Err(e) => Err(e),
    }
}

/// Whether position `j` opens an accent-phrase run within its breath group:
/// it is not a pause, and it follows the start of the sequence, a pause, or
/// a change of either breath-group field.
pub open spec fn utterance_phrase_start(ps: Seq<PhonemeView>, j: int) -> bool {
    &&& 0 <= j < ps.len()
    &&& ps[j].f1 != "xx"@
    &&& (j == 0 || ps[j - 1].f1 == "xx"@ || ps[j - 1].i3 != ps[j].i3 || ps[j - 1].f5 != ps[j].f5)
}

/// The phonemes an utterance can be built from: no accent-phrase run may
/// open on the sentinel mora-position, which would leave that phrase
/// without a single mora.
pub open spec fn utterance_input_ok(ps: Seq<PhonemeView>) -> bool {
    forall|j: int| utterance_phrase_start(ps, j) ==> (#[trigger] ps[j]).a2 != "49"@
}

/// Checks [`utterance_input_ok`] on a phoneme sequence.
pub fn check_utterance_input(phonemes: &Vec<Phoneme>) -> (b: bool)
    ensures
        b == utterance_input_ok(phonemes.deep_view()),
{
    let ghost dv = phonemes.deep_view();
    let n = phonemes.len();
    let mut j: usize = 0;
    while j < n
        invariant
            0 <= j <= n,
            n == dv.len(),
            dv == phonemes.deep_view(),
            forall|k: int| 0 <= k < j && utterance_phrase_start(dv, k) ==> (#[trigger] dv[k]).a2
                != "49"@,
        decreases n - j,
    {
        let is_pause = str_equal(phonemes[j].f1.as_str(), "xx");
        let starts = if is_pause {
            false
        } else if j == 0 {
            true
        } else {
            str_equal(phonemes[j - 1].f1.as_str(), "xx") || !(phonemes[j - 1].i3
                == phonemes[j].i3 && phonemes[j - 1].f5 == phonemes[j].f5)
        };
        proof {
            assert(utterance_phrase_start(dv, j as int) == starts);
        }
        if starts {
            if str_equal(phonemes[j].a2.as_str(), "49") {
                proof {
                    assert(!utterance_input_ok(dv));
                }
                return false;
            }
        }
        j += 1;
    }
    true
}

impl Utterance {
    /// Splits the phoneme sequence into breath groups at pause phonemes and
    /// assembles the utterance.
    pub fn from_phonemes(phonemes: Vec<Phoneme>) -> (r: Result<Utterance, EngineError>)
        requires
            utterance_input_ok(phonemes.deep_view()),
        ensures
            r is Ok <==> spec_utterance(phonemes.deep_view()) is Ok,
            r is Ok ==> r->Ok_0@ == spec_utterance(phonemes.deep_view())->Ok_0,
            r is Err ==> r->Err_0 == spec_utterance(phonemes.deep_view())->Err_0,
    {
        let ghost dv = phonemes.deep_view();
        let n = phonemes.len();
        let mut breath_groups: Vec<BreathGroup> = Vec::new();
        let mut run: Vec<Phoneme> = Vec::new();
        let ghost mut gs: int = 0;
        let mut i: usize = 0;
        proof {
            assert(run.deep_view() =~= dv.subrange(0, 0));
            assert(run.deep_view() =~= Seq::<PhonemeView>::empty());
            assert(breath_groups.deep_view() =~= Seq::<BreathGroupView>::empty());
        }
        while i < n
            invariant
                0 <= i <= n,
                n == dv.len(),
                dv == phonemes.deep_view(),
                utterance_input_ok(dv),
                0 <= gs <= i,
                run.deep_view() =~= dv.subrange(gs, i as int),
                gs == 0 || dv[gs - 1].f1 == "xx"@,
                forall|k: int| gs <= k < i ==> (#[trigger] dv[k]).f1 != "xx"@,
                utterance_step(dv, 0, Seq::empty(), Seq::empty()) == utterance_step(
                    dv,
                    i as int,
                    run.deep_view(),
                    breath_groups.deep_view(),
                ),
            decreases n - i,
        {
            let ghost old_run = run.deep_view();
            let ghost old_acc = breath_groups.deep_view();
            if str_equal(phonemes[i].f1.as_str(), "xx") {
                if run.len() > 0 {
                    proof {
                        // Every accent-phrase run start inside this group is
                        // a phrase start of the whole sequence, so the group
                        // meets the breath-group input condition.
                        assert forall|k: int| breath_group_run_start(old_run, k) implies (
                        #[trigger] old_run[k]).a2 != "49"@ by {
                            assert(old_run[k] == dv[gs + k]);
                            if k > 0 {
                                assert(old_run[k - 1] == dv[gs + k - 1]);
                            }
                            assert(utterance_phrase_start(dv, gs + k));
                        }
                    }
                    let run_vec = run;
                    run = Vec::new();
                    match BreathGroup::from_phonemes(run_vec) {
                        Ok(bg) => {
                            breath_groups.push(bg);
                            proof {
                                assert(run.deep_view() =~= Seq::<PhonemeView>::empty());
                                assert(breath_groups.deep_view() =~= old_acc.push(
                                    spec_breath_group(old_run)->Ok_0,
                                ));
                                gs = i + 1;
                                assert(utterance_step(dv, i as int, old_run, old_acc)
                                    == utterance_step(
                                    dv,
                                    i + 1,
                                    run.deep_view(),
                                    breath_groups.deep_view(),
                                ));
                            }
                        },
                        Err(e) => {
                            return Err(e);
                        },
                    }
                } else {
                    proof {
                        gs = i + 1;
                    }
                }
            } else {
                run.push(phonemes[i].clone());
                proof {
                    assert(run.deep_view() =~= old_run.push(dv[i as int]));
                    assert(run.deep_view() =~= dv.subrange(gs, i + 1));
                }
            }
            i += 1;
        }
        let r = Utterance { breath_groups };
        proof {
            assert(r@ =~= spec_utterance(dv)->Ok_0);
        }
        Ok(r)
    }
}

/// The accent index invariant: once a phrase is assembled, its accent
/// position lies between one and its mora count, even when the label
/// claimed a later position.  A label whose accent field reads zero is the
/// one input left out: the clamp only lowers an index, it never raises one.
pub proof fn lemma_accent_in_range(ps: Seq<PhonemeView>)
    requires
        spec_accent_phrase(ps) is Ok,
        spec_split_moras(ps)->Ok_0.len() > 0,
        spec_parse_usize(spec_split_moras(ps)->Ok_0[0].vowel.f2)->Some_0 >= 1,
    ensures
        1 <= spec_accent_phrase(ps)->Ok_0.accent,
        spec_accent_phrase(ps)->Ok_0.accent <= spec_accent_phrase(ps)->Ok_0.moras.len(),
{
}

/// Segmentation is deterministic: the same phoneme sequence always yields
/// the same mora, accent-phrase and breath-group partition, so re-running
/// the builder can never produce a different utterance.
pub proof fn lemma_structure_deterministic(a: Seq<PhonemeView>, b: Seq<PhonemeView>)
    requires
        a == b,
    ensures
        spec_utterance(a) == spec_utterance(b),
        spec_split_moras(a) == spec_split_moras(b),
        spec_accent_phrase(a) == spec_accent_phrase(b),
        spec_breath_group(a) == spec_breath_group(b),
{
}

} // verus!
