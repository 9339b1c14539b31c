use prosody::align::{initial_process, split_mora};
use prosody::model::{create_accent_phrases, AccentPhraseModel};
use prosody::scalar::Scalar;
use prosody::wave::{
    adjust_interrogative_accent_phrases, apply_intonation_scaling, expand_frames,
    frame_parameter_lists, make_f0_with_padding, make_phoneme_with_padding,
    trim_padding_from_output, voiced_flags, FIX_VOWEL_LENGTH_BITS, FRAME_HOP, PADDING_FRAMES,
    SAMPLE_RATE,
};

fn sc(x: f32) -> Scalar {
    Scalar::from_bits(x.to_bits())
}

fn fl(s: Scalar) -> f32 {
    f32::from_bits(s.bits)
}

fn lab(p3: &str, a2: &str, f1: &str, f2: &str, f3: &str, f5: &str, i3: &str) -> String {
    format!("xx^xx-{p3}+{a2}+{a2}/B:xx/F:{f1}_{f2}#{f3}_@{f5}_/H:{f5}_@{i3}+/J:1_")
}

fn ka_n_phrases() -> Vec<AccentPhraseModel> {
    let labels = vec![
        lab("sil", "xx", "xx", "xx", "xx", "xx", "xx"),
        lab("k", "1", "0", "1", "0", "1", "1"),
        lab("a", "1", "0", "1", "0", "1", "1"),
        lab("N", "2", "0", "1", "0", "1", "1"),
        lab("sil", "xx", "xx", "xx", "xx", "xx", "xx"),
    ];
    create_accent_phrases(&labels).unwrap()
}

#[test]
fn numeric_constants_match_their_values() {
    assert_eq!(SAMPLE_RATE, 24000);
    assert_eq!(FRAME_HOP, 256);
    // 0.4 s at 24000 / 256 frames per second is 37.5 frames, rounded to 38.
    assert_eq!(PADDING_FRAMES, 38);
    assert_eq!(
        PADDING_FRAMES,
        ((0.4f64 * 24000.0) / 256.0).round() as usize
    );
    assert_eq!(FIX_VOWEL_LENGTH_BITS, 0.15f32.to_bits());
    assert_eq!(Scalar::zero().bits, 0.0f32.to_bits());
    assert_eq!(Scalar::one().bits, 1.0f32.to_bits());
}

#[test]
fn scalar_sign_tests_agree_with_float_comparisons() {
    let samples = [
        0.0f32,
        -0.0,
        1.0,
        -1.0,
        0.01,
        6.5,
        f32::INFINITY,
        f32::NEG_INFINITY,
        f32::NAN,
        f32::MIN_POSITIVE,
    ];
    for x in samples {
        assert_eq!(sc(x).is_nonzero(), x != 0.0, "nonzero test for {x}");
        assert_eq!(sc(x).is_positive(), x > 0.0, "positive test for {x}");
    }
}

#[test]
fn interrogative_phrase_gains_one_raised_mora() {
    let mut phrases = ka_n_phrases();
    phrases[0].is_interrogative = true;
    phrases[0].moras[1].pitch = sc(5.0);
    let before = phrases[0].moras.len();
    // The caller raises the final pitch by three tenths, capped at 6.5.
    let p = fl(phrases[0].moras[1].pitch);
    let bumped = vec![sc((p + 0.3).min(6.5))];
    let out = adjust_interrogative_accent_phrases(&phrases, &bumped);
    let moras = &out[0].moras;
    assert_eq!(moras.len(), before + 1);
    let extra = moras.last().unwrap();
    assert!(extra.consonant.is_none());
    assert!(extra.consonant_length.is_none());
    assert_eq!(extra.vowel, "N");
    assert_eq!(extra.vowel_length.bits, 0.15f32.to_bits());
    assert_eq!(fl(extra.pitch), 5.3);
    assert_eq!(extra.text, "ン");
}

#[test]
fn interrogative_cap_holds_at_the_ceiling() {
    let mut phrases = ka_n_phrases();
    phrases[0].is_interrogative = true;
    phrases[0].moras[1].pitch = sc(6.4);
    let p = fl(phrases[0].moras[1].pitch);
    let bumped = vec![sc((p + 0.3).min(6.5))];
    let out = adjust_interrogative_accent_phrases(&phrases, &bumped);
    assert_eq!(fl(out[0].moras.last().unwrap().pitch), 6.5);
}

#[test]
fn silent_interrogative_phrase_is_left_alone() {
    let mut phrases = ka_n_phrases();
    phrases[0].is_interrogative = true;
    // Final pitch stays zero: the extension must not fire.
    let bumped = vec![sc(0.3)];
    let out = adjust_interrogative_accent_phrases(&phrases, &bumped);
    assert_eq!(out[0].moras.len(), phrases[0].moras.len());
}

#[test]
fn frame_lists_interleave_lengths_and_pad_pitches() {
    let mut phrases = ka_n_phrases();
    phrases[0].moras[0].consonant_length = Some(sc(0.25));
    phrases[0].moras[0].vowel_length = sc(0.5);
    phrases[0].moras[0].pitch = sc(5.0);
    phrases[0].moras[1].vowel_length = sc(0.75);
    phrases[0].moras[1].pitch = sc(2.5);
    let (moras, _) = initial_process(&phrases);
    let (lengths, pitches) = frame_parameter_lists(&moras, sc(0.1), sc(0.2));
    let l: Vec<f32> = lengths.iter().map(|x| fl(*x)).collect();
    assert_eq!(l, vec![0.1, 0.25, 0.5, 0.75, 0.2]);
    let p: Vec<f32> = pitches.iter().map(|x| fl(*x)).collect();
    assert_eq!(p, vec![0.0, 5.0, 2.5, 0.0]);
}

#[test]
fn fully_unvoiced_pitches_pass_through_unchanged() {
    let f0 = vec![sc(0.0), sc(0.0), sc(0.0), sc(0.0)];
    let voiced = voiced_flags(&f0);
    assert_eq!(voiced, vec![false, false, false, false]);
    // Whatever shifted values the caller computed, nothing may change.
    let scaled = vec![sc(9.0), sc(8.0), sc(7.0), sc(6.0)];
    let out = apply_intonation_scaling(&f0, &voiced, &scaled);
    for (a, b) in out.iter().zip(f0.iter()) {
        assert_eq!(a.bits, b.bits);
    }
}

#[test]
fn voiced_entries_take_the_shifted_values() {
    let f0 = vec![sc(0.0), sc(5.0), sc(0.0)];
    let voiced = voiced_flags(&f0);
    assert_eq!(voiced, vec![false, true, false]);
    let scaled = vec![sc(9.0), sc(5.5), sc(7.0)];
    let out = apply_intonation_scaling(&f0, &voiced, &scaled);
    assert_eq!(fl(out[0]), 0.0);
    assert_eq!(fl(out[1]), 5.5);
    assert_eq!(fl(out[2]), 0.0);
}

#[test]
fn frames_expand_by_counts_and_pitch_follows_vowel_boundaries() {
    let phrases = ka_n_phrases();
    let (_, symbols) = initial_process(&phrases);
    // Flat positions: pau k a N pau; vowel positions 0 2 3 4.
    let counts = vec![10usize, 10, 10, 10, 10];
    let f0 = vec![sc(0.0), sc(5.0), sc(2.5), sc(0.0)];
    let (onehot, f0_frames) = expand_frames(&symbols, &counts, &f0);
    assert_eq!(f0_frames.len(), 50);
    assert_eq!(onehot.len(), 50 * 45);
    // The first ten frames belong to the leading pause slot.
    assert_eq!(fl(f0_frames[0]), 0.0);
    // Frames 10 to 29 accumulate `k` and `a` and take slot 1's pitch.
    assert_eq!(fl(f0_frames[10]), 5.0);
    assert_eq!(fl(f0_frames[29]), 5.0);
    assert_eq!(fl(f0_frames[30]), 2.5);
    assert_eq!(fl(f0_frames[39]), 2.5);
    assert_eq!(fl(f0_frames[49]), 0.0);
    // The first frame is the pause class, one-hot.
    assert_eq!(fl(onehot[0]), 1.0);
    for j in 1..45 {
        assert_eq!(fl(onehot[j]), 0.0);
    }
    // Frame ten is the `k` class (position 23).
    assert_eq!(fl(onehot[10 * 45 + 23]), 1.0);
    assert_eq!(fl(onehot[10 * 45]), 0.0);
}

#[test]
fn padding_surrounds_both_arrays_with_silence() {
    let f0 = vec![sc(5.0), sc(2.5)];
    let padded = make_f0_with_padding(&f0, 3);
    assert_eq!(padded.len(), 2 + 6);
    for i in 0..3 {
        assert_eq!(padded[i].bits, 0);
        assert_eq!(padded[5 + i].bits, 0);
    }
    assert_eq!(fl(padded[3]), 5.0);
    assert_eq!(fl(padded[4]), 2.5);

    let row: Vec<Scalar> = (0..45).map(|j| if j == 7 { sc(1.0) } else { sc(0.0) }).collect();
    let padded2 = make_phoneme_with_padding(&row, 2);
    assert_eq!(padded2.len(), 45 * 5);
    // Each padding row is the first phoneme class, one-hot.
    assert_eq!(fl(padded2[0]), 1.0);
    for j in 1..45 {
        assert_eq!(fl(padded2[j]), 0.0);
    }
    assert_eq!(fl(padded2[45]), 1.0);
    // The payload sits between the pads.
    assert_eq!(fl(padded2[2 * 45 + 7]), 1.0);
    assert_eq!(fl(padded2[4 * 45]), 1.0);
}

#[test]
fn trimming_removes_exactly_the_padding_from_each_end() {
    let frames = 50usize;
    let padded_frames = frames + 2 * PADDING_FRAMES;
    let decoded: Vec<Scalar> = (0..padded_frames * FRAME_HOP).map(|i| sc(i as f32)).collect();
    let trimmed = trim_padding_from_output(decoded.clone(), PADDING_FRAMES);
    assert_eq!(
        decoded.len() - 2 * PADDING_FRAMES * FRAME_HOP,
        trimmed.len()
    );
    assert_eq!(trimmed.len(), frames * FRAME_HOP);
    assert_eq!(trimmed[0].bits, decoded[PADDING_FRAMES * FRAME_HOP].bits);
    assert_eq!(
        trimmed[trimmed.len() - 1].bits,
        decoded[decoded.len() - PADDING_FRAMES * FRAME_HOP - 1].bits
    );
}

#[test]
fn two_mora_utterance_signal_length_follows_the_frame_counts() {
    // A one-breath-group, one-accent-phrase utterance of `ka` and `N`,
    // with every duration slot at a tenth of a second.
    let mut phrases = ka_n_phrases();
    assert_eq!(phrases.len(), 1);
    assert_eq!(phrases[0].accent, 1);
    assert!(!phrases[0].is_interrogative);
    let durations = [0.1f32; 5];
    phrases[0].moras[0].consonant_length = Some(sc(durations[1]));
    phrases[0].moras[0].vowel_length = sc(durations[2]);
    phrases[0].moras[0].pitch = sc(5.0);
    phrases[0].moras[1].vowel_length = sc(durations[3]);
    let (moras, symbols) = initial_process(&phrases);
    let (lengths, _pitches) = frame_parameter_lists(&moras, sc(0.1), sc(0.1));
    // Frame counts at speed one: each entry rounds up on its own.
    let rate = 24000.0f32 / 256.0;
    let counts: Vec<usize> = lengths.iter().map(|l| (fl(*l) * rate).ceil() as usize).collect();
    assert_eq!(counts, vec![10, 10, 10, 10, 10]);
    let f0 = vec![sc(0.0), sc(5.0), sc(0.0), sc(0.0)];
    let (_onehot, f0_frames) = expand_frames(&symbols, &counts, &f0);
    let total_frames: usize = counts.iter().sum();
    assert_eq!(f0_frames.len(), total_frames);
    // The decoder returns one hop of samples per padded frame; trimming
    // leaves the frame count's worth of samples.
    let decoded = vec![sc(0.25); (total_frames + 2 * PADDING_FRAMES) * FRAME_HOP];
    let signal = trim_padding_from_output(decoded, PADDING_FRAMES);
    assert_eq!(signal.len(), total_frames * FRAME_HOP);
}

#[test]
fn split_mora_handles_the_interrogative_extension_too() {
    let mut phrases = ka_n_phrases();
    phrases[0].is_interrogative = true;
    phrases[0].moras[1].pitch = sc(4.0);
    let bumped = vec![sc(4.3)];
    let adjusted = adjust_interrogative_accent_phrases(&phrases, &bumped);
    let (_, symbols) = initial_process(&adjusted);
    // pau k a N N pau: the synthetic mora repeats the final vowel.
    let texts: Vec<&str> = symbols.iter().map(|s| s.phoneme.as_str()).collect();
    assert_eq!(texts, vec!["pau", "k", "a", "N", "N", "pau"]);
    let (_, _, indexes) = split_mora(&symbols);
    assert_eq!(indexes, vec![0, 2, 3, 4, 5]);
}
