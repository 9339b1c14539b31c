use prosody::align::{check_phrases_wf, initial_process, split_mora};
use prosody::duration::replace_phoneme_length;
use prosody::model::{create_accent_phrases, AccentPhraseModel};
use prosody::pitch::{check_pitch_inputs_ok, intonation_inputs, replace_mora_pitch};
use prosody::scalar::Scalar;

fn sc(x: f32) -> Scalar {
    Scalar::from_bits(x.to_bits())
}

fn fl(s: Scalar) -> f32 {
    f32::from_bits(s.bits)
}

fn lab(p3: &str, a2: &str, f1: &str, f2: &str, f3: &str, f5: &str, i3: &str) -> String {
    format!("xx^xx-{p3}+{a2}+{a2}/B:xx/F:{f1}_{f2}#{f3}_@{f5}_/H:{f5}_@{i3}+/J:1_")
}

fn ka_n_phrases() -> Vec<AccentPhraseModel> {
    let labels = vec![
        lab("sil", "xx", "xx", "xx", "xx", "xx", "xx"),
        lab("k", "1", "0", "1", "0", "1", "1"),
        lab("a", "1", "0", "1", "0", "1", "1"),
        lab("N", "2", "0", "1", "0", "1", "1"),
        lab("sil", "xx", "xx", "xx", "xx", "xx", "xx"),
    ];
    create_accent_phrases(&labels).unwrap()
}

#[test]
fn flat_sequence_length_counts_every_phoneme_and_both_pauses() {
    let phrases = ka_n_phrases();
    let (moras, symbols) = initial_process(&phrases);
    // One consonant-vowel mora and one vowel-only mora: 2 + (2 + 1).
    assert_eq!(moras.len(), 2);
    assert_eq!(symbols.len(), 5);
    let texts: Vec<&str> = symbols.iter().map(|s| s.phoneme.as_str()).collect();
    assert_eq!(texts, vec!["pau", "k", "a", "N", "pau"]);
}

#[test]
fn vowel_indexes_align_moras_with_flat_positions() {
    let phrases = ka_n_phrases();
    let (_, symbols) = initial_process(&phrases);
    let (consonants, vowels, indexes) = split_mora(&symbols);
    assert_eq!(indexes, vec![0, 2, 3, 4]);
    let v: Vec<&str> = vowels.iter().map(|s| s.phoneme.as_str()).collect();
    assert_eq!(v, vec!["pau", "a", "N", "pau"]);
    let c: Vec<&str> = consonants.iter().map(|s| s.phoneme.as_str()).collect();
    // The consonant slot is empty where the previous flat position is
    // itself a vowel position.
    assert_eq!(c, vec!["", "k", "", ""]);
}

#[test]
fn duration_scatter_places_service_lengths_on_the_right_moras() {
    let phrases = ka_n_phrases();
    assert!(check_phrases_wf(&phrases));
    let lengths = vec![sc(9.9), sc(0.25), sc(0.5), sc(0.75), sc(9.8)];
    let out = replace_phoneme_length(&phrases, &lengths);
    let ap = &out[0];
    assert_eq!(fl(ap.moras[0].consonant_length.unwrap()), 0.25);
    assert_eq!(fl(ap.moras[0].vowel_length), 0.5);
    assert!(ap.moras[1].consonant_length.is_none());
    assert_eq!(fl(ap.moras[1].vowel_length), 0.75);
    // Everything else passes through unchanged.
    assert_eq!(ap.accent, phrases[0].accent);
    assert_eq!(ap.moras[0].text, phrases[0].moras[0].text);
}

#[test]
fn duration_floor_survives_the_scatter() {
    // The duration service floors its outputs; the scatter only moves
    // values, so every length stays at or above the floor.
    let phrases = ka_n_phrases();
    let raw = [0.0f32, -0.5, 0.004, 2.0, 0.01];
    let floored: Vec<Scalar> = raw
        .iter()
        .map(|x| sc(if *x < 0.01 { 0.01 } else { *x }))
        .collect();
    let out = replace_phoneme_length(&phrases, &floored);
    for ap in out.iter() {
        for m in ap.moras.iter() {
            assert!(fl(m.vowel_length) >= 0.01);
            if let Some(c) = m.consonant_length {
                assert!(fl(c) >= 0.01);
            }
        }
    }
}

#[test]
fn pitch_scatter_zeroes_unvoiced_slots() {
    let phrases = ka_n_phrases();
    let f0 = vec![sc(1.0), sc(5.0), sc(2.5), sc(3.0)];
    let out = replace_mora_pitch(&phrases, &f0);
    let ap = &out[0];
    // `a` and `N` are voiced: they take the service values in slot order.
    assert_eq!(fl(ap.moras[0].pitch), 5.0);
    assert_eq!(fl(ap.moras[1].pitch), 2.5);
}

#[test]
fn devoiced_vowel_gets_pitch_exactly_zero() {
    let mut phrases = ka_n_phrases();
    // Devoice the first mora's vowel: its slot must come back at zero
    // whatever the service said.
    phrases[0].moras[0].vowel = "A".to_string();
    let f0 = vec![sc(1.0), sc(5.0), sc(2.5), sc(3.0)];
    let out = replace_mora_pitch(&phrases, &f0);
    assert_eq!(out[0].moras[0].pitch.bits, 0);
    assert_eq!(fl(out[0].moras[0].pitch), 0.0);
    assert_eq!(fl(out[0].moras[1].pitch), 2.5);
}

#[test]
fn intonation_inputs_mark_accent_boundaries_per_vowel_slot() {
    let phrases = ka_n_phrases();
    assert!(check_phrases_wf(&phrases));
    assert!(check_pitch_inputs_ok(&phrases));
    let req = intonation_inputs(&phrases);
    // Slots: leading pause, `a`, `N`, trailing pause.
    assert_eq!(req.vowel_ids, vec![0, 7, 4, 0]);
    assert_eq!(req.consonant_ids, vec![-1, 23, -1, -1]);
    // The accent is initial, so the accent starts on the first mora.
    assert_eq!(req.start_accent, vec![0, 1, 0, 0]);
    // The mora before the accented one is the first mora.
    assert_eq!(req.end_accent, vec![0, 1, 0, 0]);
    assert_eq!(req.start_accent_phrase, vec![0, 1, 0, 0]);
    assert_eq!(req.end_accent_phrase, vec![0, 0, 1, 0]);
}


#[test]
fn pause_mora_consumes_one_vowel_slot() {
    // Two breath groups: the first phrase carries a synthetic pause mora,
    // which takes a duration and a pitch slot of its own.
    let labels = vec![
        lab("sil", "xx", "xx", "xx", "xx", "xx", "xx"),
        lab("a", "1", "0", "1", "0", "1", "1"),
        lab("sil", "xx", "xx", "xx", "xx", "xx", "xx"),
        lab("o", "1", "0", "1", "0", "2", "2"),
        lab("sil", "xx", "xx", "xx", "xx", "xx", "xx"),
    ];
    let phrases = create_accent_phrases(&labels).unwrap();
    assert_eq!(phrases.len(), 2);
    assert!(phrases[0].pause_mora.is_some());
    // Flat symbols: pau a pau o pau; every position closes a mora.
    let (moras, symbols) = initial_process(&phrases);
    assert_eq!(moras.len(), 3);
    assert_eq!(symbols.len(), 5);
    let (_, _, indexes) = split_mora(&symbols);
    assert_eq!(indexes, vec![0, 1, 2, 3, 4]);
    let lengths = vec![sc(0.1), sc(0.2), sc(0.3), sc(0.4), sc(0.5)];
    let out = replace_phoneme_length(&phrases, &lengths);
    assert_eq!(fl(out[0].moras[0].vowel_length), 0.2);
    assert_eq!(fl(out[0].pause_mora.as_ref().unwrap().vowel_length), 0.3);
    assert_eq!(fl(out[1].moras[0].vowel_length), 0.4);
    let f0 = vec![sc(1.0), sc(5.0), sc(6.0), sc(7.0), sc(2.0)];
    let pitched = replace_mora_pitch(&phrases, &f0);
    assert_eq!(fl(pitched[0].moras[0].pitch), 5.0);
    // The pause slot is silent by nature: forced to zero, not 6.0.
    assert_eq!(pitched[0].pause_mora.as_ref().unwrap().pitch.bits, 0);
    assert_eq!(fl(pitched[1].moras[0].pitch), 7.0);
}
