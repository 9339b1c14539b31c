use prosody::error::EngineError;
use prosody::model::{check_accent_phrase_input, create_accent_phrases};
use prosody::mora_text::mora_to_text;
use prosody::ojt_phoneme::{OjtPhoneme, NUM_PHONEME};

fn make_label(
    p3: &str,
    a2: &str,
    f1: &str,
    f2: &str,
    f3: &str,
    f5: &str,
    i3: &str,
) -> String {
    format!("xx^xx-{p3}+{a2}+{a2}/B:xx/F:{f1}_{f2}#{f3}_@{f5}_/H:{f5}_@{i3}+/J:1_")
}

fn pause_label() -> String {
    make_label("sil", "xx", "xx", "xx", "xx", "xx", "xx")
}

fn ka_n_labels() -> Vec<String> {
    vec![
        pause_label(),
        make_label("k", "1", "0", "1", "0", "1", "1"),
        make_label("a", "1", "0", "1", "0", "1", "1"),
        make_label("N", "2", "0", "1", "0", "1", "1"),
        pause_label(),
    ]
}

#[test]
fn builds_the_model_phrases_from_labels() {
    let labels = ka_n_labels();
    assert!(check_accent_phrase_input(&labels));
    let phrases = create_accent_phrases(&labels).unwrap();
    assert_eq!(phrases.len(), 1);
    let ap = &phrases[0];
    assert_eq!(ap.moras.len(), 2);
    assert_eq!(ap.accent, 1);
    assert!(!ap.is_interrogative);
    assert!(ap.pause_mora.is_none());
    assert_eq!(ap.moras[0].text, "カ");
    assert_eq!(ap.moras[0].consonant.as_deref(), Some("k"));
    assert_eq!(ap.moras[0].vowel, "a");
    assert_eq!(ap.moras[0].vowel_length.bits, 0);
    assert_eq!(ap.moras[0].pitch.bits, 0);
    assert_eq!(ap.moras[0].consonant_length.unwrap().bits, 0);
    assert_eq!(ap.moras[1].text, "ン");
    assert!(ap.moras[1].consonant.is_none());
    assert_eq!(ap.moras[1].vowel, "N");
}

#[test]
fn inner_breath_group_gains_a_pause_mora() {
    let mut labels = ka_n_labels();
    // A second breath group after the inner pause.
    labels.push(make_label("o", "1", "0", "1", "0", "2", "2"));
    labels.push(pause_label());
    let phrases = create_accent_phrases(&labels).unwrap();
    assert_eq!(phrases.len(), 2);
    let first = &phrases[0];
    let pm = first.pause_mora.as_ref().unwrap();
    assert_eq!(pm.text, "、");
    assert_eq!(pm.vowel, "pau");
    assert!(pm.consonant.is_none());
    assert_eq!(pm.vowel_length.bits, 0);
    assert_eq!(pm.pitch.bits, 0);
    assert!(phrases[1].pause_mora.is_none());
    assert_eq!(phrases[1].moras[0].text, "オ");
}

#[test]
fn bad_label_aborts_the_whole_utterance() {
    let mut labels = ka_n_labels();
    labels[2] = "not a label".to_string();
    match create_accent_phrases(&labels) {
        Err(EngineError::LabelParse) => {}
        _ => panic!("one bad label must abort the utterance"),
    }
}

#[test]
fn mora_text_renders_plain_and_folded_symbols() {
    assert_eq!(mora_to_text("ka".to_string()), "カ");
    assert_eq!(mora_to_text("kya".to_string()), "キャ");
    assert_eq!(mora_to_text("N".to_string()), "ン");
    assert_eq!(mora_to_text("cl".to_string()), "ッ");
    // A devoiced trailing vowel folds to lower case before the lookup.
    assert_eq!(mora_to_text("kA".to_string()), "カ");
    assert_eq!(mora_to_text("shI".to_string()), "シ");
    // A trailing vowel matches the vowel-only entry whatever precedes it.
    assert_eq!(mora_to_text("qqA".to_string()), "ア");
    // A mora no entry matches keeps its folded symbols verbatim.
    assert_eq!(mora_to_text("qqq".to_string()), "qqq");
    assert_eq!(mora_to_text(String::new()), "");
}

#[test]
fn codec_encodes_symbols_by_table_position() {
    let id = |s: &str| OjtPhoneme { phoneme: s.to_string() }.phoneme_id();
    assert_eq!(NUM_PHONEME, 45);
    assert_eq!(id("pau"), 0);
    assert_eq!(id("A"), 1);
    assert_eq!(id("a"), 7);
    assert_eq!(id("k"), 23);
    assert_eq!(id("z"), 44);
    assert_eq!(id(""), -1);
    assert_eq!(id("sil"), -1);
}

#[test]
fn convert_normalizes_boundary_silence() {
    let wrap = |s: &str| OjtPhoneme { phoneme: s.to_string() };
    let v = vec![wrap("sil"), wrap("a"), wrap("sil")];
    let c = OjtPhoneme::convert(v);
    assert_eq!(c[0].phoneme, "pau");
    assert_eq!(c[1].phoneme, "a");
    assert_eq!(c[2].phoneme, "pau");
    let v2 = vec![wrap("pau"), wrap("a"), wrap("pau")];
    let c2 = OjtPhoneme::convert(v2);
    assert_eq!(c2[0].phoneme, "pau");
    assert_eq!(c2[2].phoneme, "pau");
}
