use prosody::error::EngineError;
use prosody::label::Phoneme;
use prosody::structure::{AccentPhrase, BreathGroup, Utterance};

fn phoneme(p3: &str, a2: &str, f1: &str, f2: &str, f3: &str, f5: &str, i3: &str) -> Phoneme {
    Phoneme {
        p3: p3.to_string(),
        a2: a2.to_string(),
        a3: a2.to_string(),
        f1: f1.to_string(),
        f2: f2.to_string(),
        f3: f3.to_string(),
        f5: f5.to_string(),
        h1: f5.to_string(),
        i3: i3.to_string(),
        j1: "1".to_string(),
    }
}

fn ka_n_phonemes() -> Vec<Phoneme> {
    vec![
        phoneme("k", "1", "0", "1", "0", "1", "1"),
        phoneme("a", "1", "0", "1", "0", "1", "1"),
        phoneme("N", "2", "0", "1", "0", "1", "1"),
    ]
}

#[test]
fn groups_phonemes_into_moras() {
    let ap = AccentPhrase::from_phonemes(ka_n_phonemes()).unwrap();
    assert_eq!(ap.moras.len(), 2);
    assert!(ap.moras[0].consonant.is_some());
    assert_eq!(ap.moras[0].consonant.as_ref().unwrap().p3, "k");
    assert_eq!(ap.moras[0].vowel.p3, "a");
    assert!(ap.moras[1].consonant.is_none());
    assert_eq!(ap.moras[1].vowel.p3, "N");
    assert_eq!(ap.accent, 1);
    assert!(!ap.is_interrogative);
}

#[test]
fn accent_is_clamped_to_the_mora_count() {
    // The label claims accent position nine of a two-mora phrase.
    let mut ps = ka_n_phonemes();
    for p in ps.iter_mut() {
        p.f2 = "9".to_string();
    }
    let ap = AccentPhrase::from_phonemes(ps).unwrap();
    assert_eq!(ap.moras.len(), 2);
    assert_eq!(ap.accent, 2);
}

#[test]
fn accent_within_range_is_kept() {
    let mut ps = ka_n_phonemes();
    for p in ps.iter_mut() {
        p.f2 = "2".to_string();
    }
    let ap = AccentPhrase::from_phonemes(ps).unwrap();
    assert_eq!(ap.accent, 2);
}

#[test]
fn interrogative_flag_comes_from_the_last_mora() {
    let mut ps = ka_n_phonemes();
    ps[2].f3 = "1".to_string();
    let ap = AccentPhrase::from_phonemes(ps).unwrap();
    assert!(ap.is_interrogative);
}

#[test]
fn sentinel_mora_position_truncates_the_phrase() {
    let mut ps = ka_n_phonemes();
    ps[2].a2 = "49".to_string();
    let ap = AccentPhrase::from_phonemes(ps).unwrap();
    assert_eq!(ap.moras.len(), 1);
    assert_eq!(ap.moras[0].vowel.p3, "a");
}

#[test]
fn three_phonemes_in_one_mora_group_fail() {
    let ps = vec![
        phoneme("k", "1", "0", "1", "0", "1", "1"),
        phoneme("y", "1", "0", "1", "0", "1", "1"),
        phoneme("a", "1", "0", "1", "0", "1", "1"),
        phoneme("N", "2", "0", "1", "0", "1", "1"),
    ];
    match AccentPhrase::from_phonemes(ps) {
        Err(EngineError::TooLongMora) => {}
        _ => panic!("a three-phoneme mora group must be rejected"),
    }
}

#[test]
fn unreadable_accent_index_fails() {
    let mut ps = ka_n_phonemes();
    for p in ps.iter_mut() {
        p.f2 = "xx".to_string();
    }
    match AccentPhrase::from_phonemes(ps) {
        Err(EngineError::InvalidMora) => {}
        _ => panic!("an unreadable accent index must be rejected"),
    }
}

#[test]
fn mora_phonemes_lists_consonant_then_vowel() {
    let ap = AccentPhrase::from_phonemes(ka_n_phonemes()).unwrap();
    let both = ap.moras[0].phonemes();
    assert_eq!(both.len(), 2);
    assert_eq!(both[0].p3, "k");
    assert_eq!(both[1].p3, "a");
    let single = ap.moras[1].phonemes();
    assert_eq!(single.len(), 1);
    assert_eq!(single[0].p3, "N");
}

#[test]
fn breath_group_splits_at_field_changes() {
    let mut ps = ka_n_phonemes();
    let mut second = ka_n_phonemes();
    for p in second.iter_mut() {
        p.i3 = "2".to_string();
    }
    ps.extend(second);
    let bg = BreathGroup::from_phonemes(ps).unwrap();
    assert_eq!(bg.accent_phrases.len(), 2);
    assert_eq!(bg.accent_phrases[0].moras.len(), 2);
    assert_eq!(bg.accent_phrases[1].moras.len(), 2);
}

#[test]
fn utterance_splits_at_pauses_and_drops_them() {
    let pause = phoneme("sil", "xx", "xx", "xx", "xx", "xx", "xx");
    let mut ps = vec![pause.clone()];
    ps.extend(ka_n_phonemes());
    ps.push(pause.clone());
    let u = Utterance::from_phonemes(ps).unwrap();
    assert_eq!(u.breath_groups.len(), 1);
    assert_eq!(u.breath_groups[0].accent_phrases.len(), 1);
    assert_eq!(u.breath_groups[0].accent_phrases[0].moras.len(), 2);
}

#[test]
fn trailing_run_without_a_closing_pause_is_dropped() {
    let pause = phoneme("sil", "xx", "xx", "xx", "xx", "xx", "xx");
    let mut ps = vec![pause];
    ps.extend(ka_n_phonemes());
    // No closing pause: the run is never flushed into a breath group.
    let u = Utterance::from_phonemes(ps).unwrap();
    assert_eq!(u.breath_groups.len(), 0);
}

#[test]
fn rebuilding_the_same_sequence_gives_the_same_partition() {
    let pause = phoneme("sil", "xx", "xx", "xx", "xx", "xx", "xx");
    let mut ps = vec![pause.clone()];
    ps.extend(ka_n_phonemes());
    ps.push(pause);
    let a = Utterance::from_phonemes(ps.clone()).unwrap();
    let b = Utterance::from_phonemes(ps).unwrap();
    assert_eq!(a.breath_groups.len(), b.breath_groups.len());
    for (ga, gb) in a.breath_groups.iter().zip(b.breath_groups.iter()) {
        assert_eq!(ga.accent_phrases.len(), gb.accent_phrases.len());
        for (pa, pb) in ga.accent_phrases.iter().zip(gb.accent_phrases.iter()) {
            assert_eq!(pa.accent, pb.accent);
            assert_eq!(pa.is_interrogative, pb.is_interrogative);
            assert_eq!(pa.moras.len(), pb.moras.len());
            for (ma, mb) in pa.moras.iter().zip(pb.moras.iter()) {
                assert_eq!(ma.vowel.p3, mb.vowel.p3);
                assert_eq!(
                    ma.consonant.as_ref().map(|c| c.p3.clone()),
                    mb.consonant.as_ref().map(|c| c.p3.clone())
                );
            }
        }
    }
}
