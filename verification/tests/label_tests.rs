use prosody::error::EngineError;
use prosody::label::Phoneme;

fn label(
    p3: &str,
    a2: &str,
    a3: &str,
    f1: &str,
    f2: &str,
    f3: &str,
    f5: &str,
    h1: &str,
    i3: &str,
    j1: &str,
) -> String {
    format!("xx^xx-{p3}+{a2}+{a3}/B:xx/F:{f1}_{f2}#{f3}_@{f5}_/H:{h1}_@{i3}+/J:{j1}_")
}

#[test]
fn parses_every_field() {
    let l = label("k", "1", "2", "3", "4", "0", "5", "6", "7", "8");
    let p = Phoneme::from_label(&l).unwrap();
    assert_eq!(p.p3, "k");
    assert_eq!(p.a2, "1");
    assert_eq!(p.a3, "2");
    assert_eq!(p.f1, "3");
    assert_eq!(p.f2, "4");
    assert_eq!(p.f3, "0");
    assert_eq!(p.f5, "5");
    assert_eq!(p.h1, "6");
    assert_eq!(p.i3, "7");
    assert_eq!(p.j1, "8");
    assert_eq!(p.phoneme(), "k");
    assert!(!p.is_pause());
}

#[test]
fn parses_the_not_applicable_marker() {
    let l = label("sil", "xx", "xx", "xx", "xx", "xx", "xx", "xx", "xx", "xx");
    let p = Phoneme::from_label(&l).unwrap();
    assert_eq!(p.p3, "sil");
    assert_eq!(p.a2, "xx");
    assert_eq!(p.f1, "xx");
    assert!(p.is_pause());
}

#[test]
fn missing_field_is_fatal() {
    // No `/J:` marker anywhere: the utterance-level field cannot be found.
    let l = "xx^xx-k+1+2/B:xx/F:3_4#0_@5_/H:6_@7+";
    match Phoneme::from_label(l) {
        Err(EngineError::LabelParse) => {}
        _ => panic!("a label without the utterance-level field must be rejected"),
    }
}

#[test]
fn identity_takes_the_leftmost_dash() {
    // The first `-` with a following `+` wins, so the identity is `ky`.
    let l = label("ky", "49", "xx", "xx", "xx", "xx", "xx", "xx", "xx", "xx");
    let p = Phoneme::from_label(&l).unwrap();
    assert_eq!(p.p3, "ky");
    assert_eq!(p.a2, "49");
}

#[test]
fn digit_run_is_taken_whole() {
    let l = label("a", "12", "34", "56", "78", "90", "11", "22", "33", "44");
    let p = Phoneme::from_label(&l).unwrap();
    assert_eq!(p.a2, "12");
    assert_eq!(p.f2, "78");
}

#[test]
fn error_messages_name_the_failure() {
    assert_eq!(
        EngineError::LabelParse.message(),
        "FullContextLabelError::LabelParse"
    );
    assert_eq!(
        EngineError::TooLongMora.message(),
        "FullContextLabelError::TooLongMora"
    );
    assert_eq!(
        EngineError::InvalidMora.message(),
        "FullContextLabelError::InvalidMora"
    );
}
