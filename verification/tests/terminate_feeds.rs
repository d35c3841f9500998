use host_telemetry::feeds::{
    article_error, article_paragraphs, article_rendering, description_preview,
    news_item_from_feed, render_paragraphs, translation_plan, translation_result,
    truncate_chars, ArticleFailure,
};
use host_telemetry::terminate::{forceful_step, graceful_step, CmdOutcome, EscalationStep};
use host_telemetry::text::{split_lines, tokens, trim_text};

fn completed(success: bool, stderr: &str) -> CmdOutcome {
    CmdOutcome::Completed { success, stderr: stderr.to_string() }
}

#[test]
fn graceful_success_ends_the_protocol() {
    match graceful_step(&completed(true, "")) {
        EscalationStep::Finished(r) => assert_eq!(r, Ok(true)),
        EscalationStep::Escalate => panic!("graceful success must not escalate"),
    }
}

#[test]
fn graceful_failure_escalates_and_forceful_success_wins() {
    match graceful_step(&completed(false, "Operation not permitted")) {
        EscalationStep::Escalate => {},
        EscalationStep::Finished(_) => panic!("graceful failure must escalate"),
    }
    assert_eq!(forceful_step(&completed(true, "")), Ok(true));
}

#[test]
fn both_stages_failing_reports_the_second_diagnostic() {
    match graceful_step(&completed(false, "first diagnostic")) {
        EscalationStep::Escalate => {},
        EscalationStep::Finished(_) => panic!("graceful failure must escalate"),
    }
    let r = forceful_step(&completed(false, "No such process"));
    assert_eq!(r, Err("Failed to kill process: No such process".to_string()));
}

#[test]
fn uninvocable_command_is_an_execution_error() {
    match graceful_step(&CmdOutcome::NotRun { error: "not found".to_string() }) {
        EscalationStep::Finished(r) => {
            assert_eq!(r, Err("Error executing kill command: not found".to_string()));
        },
        EscalationStep::Escalate => panic!("an uninvocable command must not escalate"),
    }
    let r = forceful_step(&CmdOutcome::NotRun { error: "gone".to_string() });
    assert_eq!(r, Err("Error executing kill command: gone".to_string()));
}

#[test]
fn feed_entry_defaults() {
    let item = news_item_from_feed(
        None,
        None,
        None,
        None,
        "titulo".to_string(),
        "".to_string(),
        "Lobsters",
        "Programming",
    );
    assert_eq!(item.title, "No Title");
    assert_eq!(item.link, "");
    assert_eq!(item.description, "");
    assert_eq!(item.pub_date, "");
    assert_eq!(item.title_pt, "titulo");
    assert_eq!(item.source, "Lobsters");
    assert_eq!(item.category, "Programming");
}

#[test]
fn feed_entry_keeps_present_fields() {
    let item = news_item_from_feed(
        Some("A title".to_string()),
        Some("https://example.org/a".to_string()),
        Some("body".to_string()),
        Some("Mon, 1 Jan".to_string()),
        "t".to_string(),
        "d".to_string(),
        "Wired",
        "Technology",
    );
    assert_eq!(item.title, "A title");
    assert_eq!(item.link, "https://example.org/a");
    assert_eq!(item.description, "body");
    assert_eq!(item.pub_date, "Mon, 1 Jan");
}

#[test]
fn truncation_cuts_at_the_character_limit() {
    let long: String = std::iter::repeat('x').take(301).collect();
    assert_eq!(truncate_chars(&long, 300).len(), 300);
    assert_eq!(truncate_chars("short", 300), "short");
    assert_eq!(truncate_chars("abcdef", 3), "abc");
}

#[test]
fn empty_description_needs_no_translation() {
    assert!(description_preview("").is_none());
    let p = description_preview("hello").expect("non-empty description");
    assert_eq!(p, "hello");
}

#[test]
fn translation_request_percent_encodes_the_text() {
    let url = translation_plan("https://t.example/api?q=", "hello world")
        .expect("non-empty text needs a request");
    assert_eq!(url, "https://t.example/api?q=hello%20world");
    assert!(translation_plan("https://t.example/api?q=", "").is_none());
}

#[test]
fn failed_translation_falls_back_to_the_original() {
    assert_eq!(translation_result("original", None), "original");
    assert_eq!(translation_result("original", Some("translated".to_string())), "translated");
}

#[test]
fn paragraphs_are_trimmed_non_blank_lines() {
    let ps = article_paragraphs("  first \n\n\tsecond\n   \n");
    assert_eq!(ps, vec!["first".to_string(), "second".to_string()]);
    assert_eq!(article_paragraphs(""), Vec::<String>::new());
}

#[test]
fn rendered_paragraphs_are_wrapped_in_order() {
    let ps = vec!["um".to_string(), "dois".to_string()];
    assert_eq!(render_paragraphs(&ps), "<p>um</p><p>dois</p>");
    assert_eq!(render_paragraphs(&Vec::new()), "");
}

#[test]
fn each_article_step_reports_its_own_error() {
    let e = |s: &str| s.to_string();
    assert_eq!(
        article_error(&ArticleFailure::Fetch { error: e("timed out") }),
        "Failed to fetch URL: timed out"
    );
    assert_eq!(
        article_error(&ArticleFailure::Read { error: e("bad body") }),
        "Failed to read text: bad body"
    );
    assert_eq!(
        article_error(&ArticleFailure::UrlParse { error: e("empty host") }),
        "Failed to parse URL: empty host"
    );
    assert_eq!(
        article_error(&ArticleFailure::Extract { error: e("no content") }),
        "Failed to extract content: no content"
    );
}

#[test]
fn article_rendering_branches_on_translation() {
    let translated = vec!["um".to_string(), "dois".to_string()];
    assert_eq!(
        article_rendering(true, "<div>raw</div>".to_string(), &translated),
        "<p>um</p><p>dois</p>"
    );
    assert_eq!(
        article_rendering(false, "<div>raw</div>".to_string(), &translated),
        "<div>raw</div>"
    );
}

#[test]
fn tokens_split_on_runs_of_whitespace() {
    assert_eq!(tokens("a  b\t c "), vec!["a".to_string(), "b".to_string(), "c".to_string()]);
    assert_eq!(tokens("   "), Vec::<String>::new());
}

#[test]
fn lines_split_on_line_breaks() {
    assert_eq!(split_lines("a\nb"), vec!["a".to_string(), "b".to_string()]);
    assert_eq!(split_lines("a\n"), vec!["a".to_string(), "".to_string()]);
}

#[test]
fn trimming_strips_both_ends() {
    assert_eq!(trim_text("  x y\t"), "x y");
    assert_eq!(trim_text(" \t "), "");
    assert_eq!(trim_text("x"), "x");
}
