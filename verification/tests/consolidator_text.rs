use memory_engine::consolidator::parse_consolidator_text;
use memory_engine::tokens::meaningful_tokens;

#[test]
fn parse_consolidator_text_accepts_plain_gist_and_narrative() {
    let (gist, narrative) = parse_consolidator_text(
        "GIST: User corrected the assistant about quasars.\n\nThe user stayed engaged and pushed back on an astronomy explanation.",
    )
    .ok()
    .expect("plain consolidator text should parse");

    assert_eq!(gist, "User corrected the assistant about quasars.");
    assert_eq!(
        narrative,
        "The user stayed engaged and pushed back on an astronomy explanation."
    );
}

#[test]
fn parse_consolidator_text_unwraps_json_shaped_response() {
    let (gist, narrative) = parse_consolidator_text(
        r#"{
  "gist": "GIST: User shared stable personal context.",
  "narrative": "The user said they live in Kyiv and were born in 1989."
}"#,
    )
    .ok()
    .expect("json-shaped consolidator text should be unwrapped");

    assert_eq!(gist, "User shared stable personal context.");
    assert_eq!(
        narrative,
        "The user said they live in Kyiv and were born in 1989."
    );
}

#[test]
fn parse_consolidator_text_unwraps_json_string_response() {
    let (gist, narrative) = parse_consolidator_text(
        r#""GIST: User challenged an astronomy explanation.\n\nThe user kept testing the assistant's claim about quasars and galactic dust.""#,
    )
    .ok()
    .expect("quoted consolidator text should be decoded and parsed");

    assert_eq!(gist, "User challenged an astronomy explanation.");
    assert_eq!(
        narrative,
        "The user kept testing the assistant's claim about quasars and galactic dust."
    );
}

#[test]
fn parse_consolidator_text_rejects_structural_gist() {
    let error = match parse_consolidator_text(
        "GIST: {\"gist\":\"still structured\"}\n\nThe narrative itself is readable.",
    ) {
        Ok(_) => panic!("structured gist should be rejected"),
        Err(error) => error,
    };

    assert!(error.message().contains("consolidator_gist_rejected"));
}

#[test]
fn ukrainian_stop_words_filter_common_user_tokens() {
    let tokens = meaningful_tokens("Користувач дуже любить космос і цікавиться Європою");
    let has = |t: &str| tokens.iter().any(|token| token == t);

    assert!(!has("користувач"));
    assert!(!has("дуже"));
    assert!(!has("любить"));
    assert!(!has("цікавиться"));
    assert!(has("космос"));
    assert!(has("європою"));
}
