//! The conversation with the fwends, and how its requests are made and read.
use cozyui::chat::{
    any_choice, capitalize_first, chat_body, compact_error, extract_content, fwend_system_prompt,
    intro_message, models, normalize_display_text, read_response, request_history, show_text,
    strip_self_prefix, user_name, ContentError, Message, MessageKind, Role, HISTORY_LIMIT,
    MODEL_COUNT,
};
use cozyui::openrouter::{
    content_text, curl_config, curl_config_escape, error_shaped, parse_json_body, request_failure,
};

const REPLY: &str =
    r#"{"content":"wrong","choices":[{"message":{"role":"assistant","content":"hello\nthere"}}]}"#;

fn parsed(body: &str) -> serde_json::Value {
    serde_json::from_str(body).unwrap()
}

fn check_extracted_content() {
    match extract_content(REPLY) {
        Ok(text) => assert_eq!(text, "hello there"),
        Err(_) => panic!("the reply has content"),
    }
}

fn check_unicode_body() {
    let body = parsed(&chat_body("model", "system", &vec![], "hi \"there\" 🩷", false));
    assert_eq!(body["model"], "model");
    assert_eq!(body["models"][0], "model");
    assert_eq!(body["models"][1], "@preset/free");
    assert_eq!(body["messages"][1]["content"], "hi \"there\" 🩷");
}

fn check_plain_body() {
    let body = parsed(&chat_body("model", "system", &vec![], "hi", false));
    assert_eq!(body["reasoning"]["exclude"], true);
    assert!(body["reasoning"].get("effort").is_none());
    assert!(body.get("tools").is_none());
}

fn check_thinking_body() {
    let body = parsed(&chat_body("model", "system", &vec![], "hi", true));
    assert_eq!(body["reasoning"]["effort"], "high");
    assert_eq!(body["reasoning"]["exclude"], true);
}

fn check_system_prompt() {
    let prompt = fwend_system_prompt("you are [[FREND_NAME]]!", "Qwen", "Jodie");
    assert!(prompt.starts_with("you are Qwen!"));
    assert!(prompt.contains("Never start your reply with \"Qwen:\""));
}

fn check_tagged_history() {
    let messages = vec![
        intro_message(),
        Message::user("hey".to_string()),
        Message::assistant_with_author("hi jodie".to_string(), "Kimi"),
        Message::assistant_with_author("hello!".to_string(), "Qwen"),
    ];
    let history = request_history(&messages, "Qwen", "Jodie");
    assert_eq!(history.len(), 3);
    assert!(matches!(history[0].role(), Role::User));
    assert_eq!(history[0].text(), "Jodie: hey");
    assert!(matches!(history[1].role(), Role::User));
    assert_eq!(history[1].text(), "Kimi: hi jodie");
    assert!(matches!(history[2].role(), Role::Assistant));
    assert_eq!(history[2].text(), "hello!");
}

fn check_stripped_prefix() {
    assert_eq!(strip_self_prefix("Qwen: hi there", "Qwen"), "hi there");
    assert_eq!(strip_self_prefix("  Qwen : hi", "Qwen"), "hi");
    assert_eq!(strip_self_prefix("Qwen is great", "Qwen"), "Qwen is great");
    assert_eq!(strip_self_prefix("hi there", "Qwen"), "hi there");
}

#[test]
fn fwends_extracts_assistant_message_content() {
    check_extracted_content();
}

#[test]
fn chat_extracts_assistant_message_content() {
    check_extracted_content();
}

#[test]
fn fwends_chat_body_preserves_unicode_and_escapes_json() {
    check_unicode_body();
}

#[test]
fn chat_chat_body_preserves_unicode_and_escapes_json() {
    check_unicode_body();
}

#[test]
fn fwends_chat_body_excludes_reasoning_and_omits_tools() {
    check_plain_body();
}

#[test]
fn chat_chat_body_excludes_reasoning_and_omits_tools() {
    check_plain_body();
}

#[test]
fn fwends_chat_body_thinking_enables_reasoning_but_excludes_trace() {
    check_thinking_body();
}

#[test]
fn chat_chat_body_thinking_enables_reasoning_but_excludes_trace() {
    check_thinking_body();
}

#[test]
fn fwends_fwend_system_prompt_replaces_name_placeholder() {
    check_system_prompt();
}

#[test]
fn chat_fwend_system_prompt_replaces_name_placeholder() {
    check_system_prompt();
}

#[test]
fn fwends_request_history_tags_user_and_other_models() {
    check_tagged_history();
}

#[test]
fn chat_request_history_tags_user_and_other_models() {
    check_tagged_history();
}

#[test]
fn fwends_strips_reflexive_name_prefix_from_reply() {
    check_stripped_prefix();
}

#[test]
fn chat_strips_reflexive_name_prefix_from_reply() {
    check_stripped_prefix();
}

#[test]
fn only_the_latest_messages_go_along() {
    let messages: Vec<Message> = (0..20).map(|i| Message::user(format!("m{i}"))).collect();
    let history = request_history(&messages, "Qwen", "Jodie");
    assert_eq!(history.len(), HISTORY_LIMIT);
    assert_eq!(history[0].text(), "Jodie: m12");
    assert_eq!(history[7].text(), "Jodie: m19");
}

#[test]
fn the_invitation_is_no_part_of_the_conversation() {
    assert_eq!(intro_message().kind(), MessageKind::Intro);
    assert!(request_history(&vec![intro_message()], "Qwen", "Jodie").is_empty());
    assert!(intro_message().author().is_none());
}

#[test]
fn names_are_made_of_what_is_set() {
    assert_eq!(user_name(Some("Ann"), Some("bob")), "Ann");
    assert_eq!(user_name(None, Some("bob")), "Bob");
    assert_eq!(user_name(None, None), "Fwend");
    assert_eq!(user_name(Some("  "), Some("bob")), "Fwend");
    assert_eq!(capitalize_first("ßa"), "SSa");
    assert_eq!(capitalize_first(""), "");
}

#[test]
fn every_fwend_has_its_own_name() {
    let models = models("Fwend", "a/b", "a/c");
    assert_eq!(models.len(), MODEL_COUNT);
    let names: Vec<&str> = models.iter().map(|model| model.name.as_str()).collect();
    assert_eq!(names, vec!["Fwend", "Deepseek", "Qwen", "Kimi"]);
    let icons: Vec<usize> = models.iter().map(|model| model.icon_index).collect();
    assert_eq!(icons, vec![2, 1, 0, 3]);
    assert_eq!(models[0].thinking_id, "a/c");
    assert_eq!(models[2].id, "qwen/qwen3.6-35b-a3b");
}

#[test]
fn shown_text_is_plain() {
    assert_eq!(normalize_display_text("hi 🙂"), "hi :)");
    assert_eq!(normalize_display_text("naïve"), "naive");
    assert_eq!(show_text("plain ascii"), "plain ascii");
    assert_eq!(normalize_display_text("  a\n b\t c "), "  a  b  c ");
}

#[test]
fn replies_without_content_are_told_apart() {
    assert!(matches!(extract_content("{\"choices\":[]}"), Err(ContentError::Missing)));
    assert!(matches!(
        extract_content("{\"choices\":[{\"message\":{\"content\":\"  \"}}]}"),
        Err(ContentError::Empty)
    ));
    assert!(any_choice(REPLY));
    assert!(!any_choice("{}"));
}

#[test]
fn an_error_is_shown_in_short() {
    let text = compact_error("{\"error\":{\"message\":\"too many\\nrequests\"}}");
    assert!(text.contains("too many"));
    match read_response("{\"error\":{\"message\":\"no credit\"}}") {
        Err(text) => assert!(text.contains("no credit")),
        Ok(_) => panic!("an error is no reply"),
    }
    match read_response(REPLY) {
        Ok(text) => assert_eq!(text, "hello there"),
        Err(_) => panic!("the reply has content"),
    }
}

#[test]
fn curl_values_stay_inside_their_quotes() {
    assert_eq!(curl_config_escape("a\"b\\c"), "a\\\"b\\\\c");
    let config = curl_config("key\"\nurl = \"evil", "/tmp/body");
    assert!(!config.contains("\nurl = \"evil"));
    assert!(config.contains("/tmp/body"));
}

#[test]
fn failures_are_told_as_far_as_they_are_known() {
    let told = request_failure(b"{\"error\":{\"message\":\"bad key\"}}", b"", "exit 22");
    assert!(told.contains("bad key"));
    let told = request_failure(b"", b"no route", "exit 7");
    assert!(told.contains("no route"));
    let shaped: serde_json::Value = serde_json::from_str(&error_shaped("a \"b\"")).unwrap();
    assert_eq!(shaped["error"]["message"], "a \"b\"");
    let broken: serde_json::Value = serde_json::from_str(&parse_json_body(b"<html>")).unwrap();
    assert!(broken.get("error").is_some());
    assert_eq!(parse_json_body(b"{ \"a\" : 1 }").replace(' ', ""), "{\"a\":1}");
}

#[test]
fn content_is_a_text_or_its_parts() {
    assert_eq!(content_text("\"hi\""), "hi");
    assert_eq!(
        content_text("[{\"type\":\"text\",\"text\":\"a\"},{\"type\":\"text\",\"text\":\"b\"}]"),
        "a b"
    );
    assert_eq!(content_text("null"), "");
}
