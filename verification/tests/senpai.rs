//! The senpai and the student: requests, blocks, tools and searches.
use cozyui::readable::{brave_query, compact_text, html_to_text, truncate};
use cozyui::sandbox::{page_report, report_texts, run_report, sandbox_args};
use cozyui::senpai::{
    api_error_message, block_transcript, boundary_from, brave_answer_body, briefing_from,
    briefing_request, choice, error_note, fallback_note, note_from, read_briefing, read_search,
    search_result, served_note, student_system, summary_from, summary_request, text_message,
    today_from, tool_for, web_qa, Chat, ContextPass, ContextStep, SenpaiConfig, Tool, Turn,
    TurnStep, RECENT_KEEP,
};

fn parsed(text: &str) -> serde_json::Value {
    serde_json::from_str(text).unwrap()
}

fn answer(content: &str) -> String {
    format!("{{\"choices\":[{{\"message\":{{\"role\":\"assistant\",\"content\":\"{content}\"}}}}]}}")
}

/// A conversation of some exchanges.
fn chat(exchanges: usize) -> Chat {
    let mut chat = Chat::default();
    for i in 0..exchanges {
        chat.add_exchange(&format!("q{i}"), &format!("a{i}"));
    }
    chat
}

#[test]
fn exchanges_are_kept_as_messages() {
    let chat = chat(1);
    assert_eq!(chat.recent.len(), 2);
    assert_eq!(parsed(&chat.recent[0])["role"], "user");
    assert_eq!(parsed(&chat.recent[0])["content"], "q0");
    assert_eq!(parsed(&chat.recent[1])["role"], "assistant");
    assert_eq!(parsed(&chat.recent[1])["content"], "a0");
    assert_eq!(block_transcript(&chat.recent), "user: q0\nassistant: a0");
}

#[test]
fn a_block_is_cut_and_nothing_is_lost() {
    let mut chat = chat(9);
    assert!(chat.overflows());
    let all = chat.recent.clone();
    let block = chat.take_block(Some(&answer("4")));
    assert_eq!(block.len(), 4);
    let mut joined = block.clone();
    joined.extend(chat.recent.iter().cloned());
    assert_eq!(joined, all);
    assert!(chat.recent.len() >= RECENT_KEEP);
    chat.archive_block(block, Some(&answer("they greeted")));
    assert_eq!(chat.archive.len(), 1);
    assert_eq!(chat.archive[0].summary, "they greeted");
    assert_eq!(chat.read_block(0), "user: q0\nassistant: a0\nuser: q1\nassistant: a1");
    assert_eq!(chat.read_block(7), "no such block: 7");
    let summaries = chat.summaries_message().unwrap();
    assert!(summaries.contains("they greeted"));
}

#[test]
fn a_short_conversation_stays_whole() {
    assert!(!chat(3).overflows());
    assert!(chat(3).summaries_message().is_none());
}

#[test]
fn boundaries_are_the_digits_of_an_answer() {
    assert_eq!(boundary_from(Some("block ends at 12.")), 12);
    assert_eq!(boundary_from(Some("none")), 8);
    assert_eq!(boundary_from(None), 8);
}

#[test]
fn requests_name_the_fallback_behind_the_model() {
    let config = SenpaiConfig::new("wise/model");
    let body = parsed(&briefing_request(&config, "why?", Some("they like tea")));
    assert_eq!(body["model"], config.senpai_model.as_str());
    assert_eq!(body["models"][0], config.senpai_model.as_str());
    assert_eq!(body["models"][1], "@preset/free");
    let told = body["messages"].to_string();
    assert!(told.contains("why?"));
    assert!(told.contains("they like tea"));
    let body = parsed(&summary_request("student", &chat(1).recent));
    assert_eq!(body["model"], "student");
    assert!(body["messages"].to_string().contains("assistant: a0"));
    let overflowing = chat(9);
    let body = parsed(&overflowing.boundary_request("student"));
    assert!(body["messages"].to_string().contains("q0"));
}

#[test]
fn answers_give_briefings_and_summaries() {
    assert_eq!(read_briefing(Some(&answer("be kind"))), "be kind");
    assert_eq!(read_briefing(None), briefing_from(None));
    assert!(!summary_from(None).is_empty());
    assert_eq!(summary_from(Some("tea")), "tea");
    assert_eq!(parsed(&choice(&answer("x")))["message"]["content"], "x");
}

#[test]
fn notes_are_dropped_when_there_is_nothing_to_note() {
    assert!(note_from(" NONE ").is_none());
    assert!(note_from("").is_none());
    assert_eq!(note_from(" likes tea ").as_deref(), Some("likes tea"));
}

#[test]
fn another_model_is_told_of() {
    let note = fallback_note("a/b", Some("c/d".to_string()));
    assert_eq!(note.as_deref(), Some("[a/b unavailable; @preset/free served c/d]"));
    assert!(fallback_note("a/b", Some("a/b".to_string())).is_none());
    assert!(fallback_note("@preset/x", Some("c/d".to_string())).is_none());
    assert!(served_note("a/b", "{\"model\":\"c/d\"}").is_some());
    assert!(served_note("a/b", "{}").is_none());
}

#[test]
fn an_answer_without_a_choice_is_noted() {
    let said = "{\"error\":{\"message\":\"no credit\"}}";
    assert_eq!(error_note(said).as_deref(), Some("[api error: no credit]"));
    assert_eq!(error_note("{}").as_deref(), Some("[api error: unknown]"));
    assert!(error_note(&answer("hi")).is_none());
}

#[test]
fn messages_can_be_marked_for_the_cache() {
    let plain = parsed(&text_message("user", "hi \"you\"", false));
    assert_eq!(plain["content"], "hi \"you\"");
    let marked = parsed(&text_message("system", "hi", true));
    assert_eq!(marked["content"][0]["cache_control"]["type"], "ephemeral");
    assert_eq!(marked["content"][0]["text"], "hi");
}

#[test]
fn tools_are_told_by_their_names() {
    assert!(matches!(tool_for("run_python", "{\"code\":\"1\"}"), Tool::Python(code) if code == "1"));
    assert!(matches!(tool_for("read_block", "{\"id\":3}"), Tool::ReadBlock(3)));
    assert!(matches!(tool_for("read_block", "{}"), Tool::ReadBlock(u64::MAX)));
    assert!(matches!(tool_for("dance", "{}"), Tool::Unknown));
}

#[test]
fn a_turn_uses_tools_and_replies() {
    let config = SenpaiConfig::new("wise/model");
    let mut turn = Turn::start(&config, &chat(1), "2+2?", "be brief", "monday");
    let body = parsed(&turn.request(&config));
    assert_eq!(body["model"], config.student_model.as_str());
    assert!(body.get("tools").is_some());
    let called = "{\"choices\":[{\"finish_reason\":\"tool_calls\",\"message\":{\"role\":\"assistant\",\"content\":null,\
                  \"tool_calls\":[{\"id\":\"c1\",\"type\":\"function\",\"function\":\
                  {\"name\":\"run_python\",\"arguments\":\"{\\\"code\\\":\\\"print(4)\\\"}\"}}]}}]}";
    let calls = match turn.advance(called) {
        TurnStep::UseTools(calls) => calls,
        _ => panic!("a tool is called"),
    };
    assert_eq!(calls.len(), 1);
    assert!(matches!(&calls[0].tool, Tool::Python(code) if code == "print(4)"));
    assert!(turn.add_results(&calls, &vec!["4".to_string()]).is_ok());
    let body = parsed(&turn.request(&config));
    let messages = body["messages"].as_array().unwrap();
    let last = messages.last().unwrap();
    assert_eq!(last["role"], "tool");
    assert_eq!(last["content"], "4");
    assert_eq!(last["tool_call_id"], "c1");
    match turn.advance(&answer("four")) {
        TurnStep::Reply(text) => assert_eq!(text, "four"),
        _ => panic!("a text is the reply"),
    }
}

#[test]
fn a_turn_that_never_ends_is_given_up() {
    let called = "{\"choices\":[{\"finish_reason\":\"tool_calls\",\"message\":{\"tool_calls\":[{\"id\":\"c\",\"function\":\
                  {\"name\":\"run_python\",\"arguments\":\"{}\"}}]}}]}";
    let config = SenpaiConfig::new("wise/model");
    let mut turn = Turn::start(&config, &Chat::default(), "go", "b", "t");
    let mut rounds = 0;
    loop {
        match turn.advance(called) {
            TurnStep::UseTools(calls) => {
                let results = calls.iter().map(|_| String::new()).collect();
                rounds += 1;
                if turn.add_results(&calls, &results).is_err() {
                    break;
                }
            }
            _ => panic!("tools are called again and again"),
        }
    }
    assert_eq!(rounds, 20);
}

#[test]
fn an_empty_answer_ends_the_turn() {
    let config = SenpaiConfig::new("wise/model");
    let mut turn = Turn::start(&config, &Chat::default(), "go", "b", "t");
    match turn.advance("{\"error\":{\"message\":\"no credit\"}}") {
        TurnStep::Failed(text) => assert_eq!(text, "empty reply (finish_reason: none)"),
        _ => panic!("an error is no reply"),
    }
}

#[test]
fn the_look_back_reads_blocks() {
    let mut chat = chat(9);
    assert!(ContextPass::start(&Chat::default(), "hi").is_none());
    let block = chat.cut_block(4);
    chat.archive_block(block, Some(&answer("greetings")));
    let mut pass = ContextPass::start(&chat, "what did i say?").unwrap();
    let config = SenpaiConfig::new("wise/model");
    assert!(pass.request(&config, &chat).contains("what did i say?"));
    let called = "{\"choices\":[{\"finish_reason\":\"tool_calls\",\"message\":{\"role\":\"assistant\",\"tool_calls\":[{\"id\":\"c\",\
                  \"function\":{\"name\":\"read_block\",\"arguments\":\"{\\\"id\\\":0}\"}}]}}]}";
    assert!(matches!(pass.advance(&chat, Some(called)), ContextStep::Again));
    assert!(pass.request(&config, &chat).contains("user: q0"));
    match pass.advance(&chat, Some(&answer("they said q0"))) {
        ContextStep::Done(note) => assert_eq!(note.as_deref(), Some("they said q0")),
        ContextStep::Again => panic!("a text ends the look back"),
    }
}

#[test]
fn the_student_knows_the_day() {
    let system = student_system(&SenpaiConfig::new("wise/model"), "monday");
    assert!(system.contains("monday"));
    assert_eq!(today_from(Some(" 2026-01-01\n")).trim(), "2026-01-01");
    assert!(!today_from(None).is_empty());
}

#[test]
fn searches_are_answered_or_refused() {
    let body = parsed(&brave_answer_body("why is the sky blue?"));
    assert_eq!(body["model"], "brave");
    assert!(body["messages"].to_string().contains("why is the sky blue?"));
    assert_eq!(search_result("blue", None), Ok("blue".to_string()));
    assert_eq!(
        search_result(" ", Some("stop".to_string())),
        Err("empty Brave Answers response (finish_reason: stop)".to_string())
    );
    let cut = search_result("blue", Some("length".to_string()));
    assert_eq!(cut, Ok("blue\n(answer truncated)".to_string()));
    assert_eq!(read_search(&answer("blue")), Ok("blue".to_string()));
    assert!(read_search("{\"error\":{\"message\":\"quota\"}}").is_err());
    assert!(api_error_message("{\"error\":{\"message\":\"quota\"}}").contains("quota"));
    assert_eq!(web_qa(Ok("blue".to_string())), "blue");
    assert!(web_qa(Err("quota".to_string())).contains("quota"));
}

#[test]
fn pages_are_read_without_their_tags() {
    let page = "<html><script>var a = '<b>';</script><p>a &amp; b</p>\n<style>p{}</style> c&nbsp;d";
    assert_eq!(html_to_text(page), "a & b c d");
    assert_eq!(page_report("<p>hi</p>"), "hi");
    assert_eq!(html_to_text("5 &lt; 6"), "5 < 6");
}

#[test]
fn long_texts_are_cut_between_characters() {
    assert_eq!(truncate("abc", 3), "abc");
    let cut = truncate("äöü", 3);
    assert!(cut.starts_with('ä'));
    assert!(!cut.starts_with("äö"));
    assert_eq!(compact_text("a  b", 10), "a b");
    assert_eq!(compact_text("abcdef", 3), "abc...");
    let long = vec!["word"; 60].join(" ");
    assert_eq!(brave_query(&long).split(' ').count(), 50);
}

#[test]
fn the_sandbox_shows_only_what_it_must() {
    let args = sandbox_args("/h", [true, false, false], true, "python3", &vec!["-c".to_string()]);
    let text = args.join(" ");
    assert!(text.contains("--ro-bind /h/.WolframEngine /h/.WolframEngine"));
    assert!(!text.contains("/h/.Wolfram "));
    assert!(text.contains("--bind /h/.cache/Wolfram"));
    assert!(text.contains("--unshare-all"));
    assert!(text.ends_with("-- python3 -c"));
}

#[test]
fn reports_hold_what_was_printed() {
    assert!(run_report(b"4\n", b"", 100).contains('4'));
    assert!(report_texts("", "oops", 100).contains("oops"));
    assert!(run_report(b"\xff", b"", 100).contains('\u{FFFD}'));
}
