use memory_engine::prompt::{
    render_archive_memory_prompt_lines, render_context_event_prompt_line,
    render_core_fact_prompt_line, render_dialogue_lines, render_memory_view, truncate_text,
    xml_escape, DialogueEvent, ARCHIVE_MEMORY_PROMPT_LIMIT,
};
use memory_engine::timelabel::{bucket_label, offset_label, LocalStamp, TimeLabelContext};
use memory_engine::types::{CoreContextEvent, CoreFactStatus, Speaker};

/// A score as the host writes it into prompt lines: clamped to [0, 1],
/// rounded to two decimals, trailing zeros dropped.
fn format_score(value: f64) -> String {
    let clamped = if value.is_finite() { value.clamp(0.0, 1.0) } else { 0.0 };
    let rounded = (clamped * 100.0).round() / 100.0;
    let mut formatted = format!("{rounded:.2}");
    while formatted.contains('.') && formatted.ends_with('0') {
        formatted.pop();
    }
    if formatted.ends_with('.') {
        formatted.push('0');
    }
    formatted
}

struct CoreFactItem {
    category: &'static str,
    text: &'static str,
    status: CoreFactStatus,
    confidence: f64,
}

struct ArchiveItem {
    gist: &'static str,
    compact_memory: Option<&'static str>,
    time_range_end: Option<&'static str>,
    relevance_score: f64,
}

struct Package {
    created_at: &'static str,
    utc_offset_minutes: i32,
    clock_untrusted: bool,
    core_facts: Vec<CoreFactItem>,
    session_recent: Vec<CoreContextEvent>,
    session_trace: Vec<CoreContextEvent>,
    archive_relevant: Vec<ArchiveItem>,
}

fn event(
    event_id: &str,
    timestamp: &str,
    event_type: &str,
    source: &str,
    speaker: Option<Speaker>,
    text: &str,
) -> CoreContextEvent {
    CoreContextEvent {
        event_id: event_id.to_string(),
        timestamp: timestamp.to_string(),
        event_type: event_type.to_string(),
        source: source.to_string(),
        speaker,
        text: Some(text.to_string()),
        tags: vec![],
        theme: None,
    }
}

fn view(package: &Package, current_user_message: &str) -> String {
    let time = TimeLabelContext::new(
        package.created_at,
        package.utc_offset_minutes,
        package.clock_untrusted,
    );
    let core_lines = package
        .core_facts
        .iter()
        .filter_map(|fact| {
            render_core_fact_prompt_line(
                fact.category,
                fact.text,
                fact.status,
                &format_score(fact.confidence),
            )
        })
        .collect::<Vec<_>>();
    let archive_lines = package
        .archive_relevant
        .iter()
        .take(ARCHIVE_MEMORY_PROMPT_LIMIT)
        .flat_map(|archive| {
            render_archive_memory_prompt_lines(
                &archive.compact_memory.map(str::to_string),
                archive.gist,
                &archive.time_range_end.map(str::to_string),
                &time,
                &format_score(archive.relevance_score),
            )
        })
        .collect::<Vec<_>>();
    render_memory_view(
        &package.session_recent,
        &package.session_trace,
        core_lines,
        archive_lines,
        &time,
        current_user_message,
    )
}

#[test]
fn memory_view_keeps_layers_separate_and_drops_current_duplicate() {
    let package = Package {
        created_at: "2026-05-30T10:00:00Z",
        utc_offset_minutes: 0,
        clock_untrusted: false,
        core_facts: vec![CoreFactItem {
            category: "profile",
            text: "User name is Mykyta.",
            status: CoreFactStatus::Active,
            confidence: 0.95,
        }],
        session_recent: vec![
            event(
                "event_1",
                "2026-05-30T10:00:00Z",
                "assistant_message",
                "bot",
                None,
                "We talked about the cat Irzha.",
            ),
            event(
                "event_2",
                "2026-05-30T10:01:00Z",
                "user_message",
                "user",
                None,
                "Do you remember Irzha?",
            ),
        ],
        session_trace: vec![],
        archive_relevant: vec![ArchiveItem {
            gist: "The cat Irzha was an important topic.",
            compact_memory: Some("Irzha -> warm personal memory."),
            time_range_end: None,
            relevance_score: 0.876,
        }],
    };

    let view = view(&package, "Do you remember Irzha?");

    assert!(view.contains("<core_memory>"));
    assert!(view.contains("- profile (0.95): User name is Mykyta."));
    assert!(view.contains("<long_memory>"));
    assert!(view.contains("- [0.88] Irzha -&gt; warm personal memory."));
    assert!(view.contains("<short_memory>"));
    assert!(view.contains("assistant: We talked about the cat Irzha."));
    assert!(!view.contains("user: Do you remember Irzha?"));
    assert!(view.contains("<current_user_message>\nDo you remember Irzha?\n</current_user_message>"));
    assert!(view.contains("current_time: 2026-05-30 10:00 Saturday (UTC)"));
}

fn labeled_package(created_at: &'static str, clock_untrusted: bool) -> Package {
    Package {
        created_at,
        utc_offset_minutes: 0,
        clock_untrusted,
        core_facts: vec![],
        session_recent: vec![event(
            "event_recent",
            created_at,
            "user_message",
            "user",
            None,
            "Fresh line.",
        )],
        session_trace: vec![
            event(
                "event_old",
                "2026-07-01T09:00:00Z",
                "user_message",
                "user",
                None,
                "Older line.",
            ),
            event("event_recent", created_at, "user_message", "user", None, "Fresh line."),
        ],
        archive_relevant: vec![ArchiveItem {
            gist: "Motorcycle purchase discussion.",
            compact_memory: Some("Zheka -> bought a motorcycle."),
            time_range_end: Some("2026-07-01T09:30:00Z"),
            relevance_score: 0.876,
        }],
    }
}

#[test]
fn memory_view_labels_archive_age_and_marks_older_dialogue_days() {
    let view = view(&labeled_package("2026-07-02T10:00:00Z", false), "Next?");

    assert!(view.contains("current_time: 2026-07-02 10:00 Thursday (UTC)"));
    assert!(view.contains("- [yesterday | 0.88] Zheka -&gt; bought a motorcycle."));
    assert!(view.contains("[yesterday]\nuser: Older line."));
}

#[test]
fn memory_view_relabels_same_package_when_rendered_later() {
    let view = view(&labeled_package("2026-07-09T10:00:00Z", false), "Next?");

    assert!(view.contains("- [earlier this month | 0.88] Zheka -&gt; bought a motorcycle."));
}

#[test]
fn memory_view_omits_labels_when_clock_is_untrusted() {
    let view = view(&labeled_package("2026-07-02T10:00:00Z", true), "Next?");

    assert!(!view.contains("current_time:"));
    assert!(view.contains("- [0.88] Zheka -&gt; bought a motorcycle."));
    assert!(!view.contains("[yesterday]"));
}

#[test]
fn age_labels_follow_calendar_buckets_and_local_offset() {
    let utc = TimeLabelContext::new("2026-07-02T10:00:00Z", 0, false);
    assert_eq!(utc.age_label("2026-07-02T00:30:00Z").as_deref(), Some("today"));
    assert_eq!(utc.age_label("2026-07-01T23:59:00Z").as_deref(), Some("yesterday"));
    assert_eq!(utc.age_label("2026-06-30T10:00:00Z").as_deref(), Some("2 days ago"));
    assert_eq!(utc.age_label("2026-06-26T10:00:00Z").as_deref(), Some("6 days ago"));
    assert_eq!(utc.age_label("2026-06-25T10:00:00Z").as_deref(), Some("last month"));
    assert_eq!(utc.age_label("2026-07-03T10:00:00Z"), None);

    let mid_month = TimeLabelContext::new("2026-07-20T10:00:00Z", 0, false);
    assert_eq!(
        mid_month.age_label("2026-07-10T10:00:00Z").as_deref(),
        Some("earlier this month")
    );
    assert_eq!(mid_month.age_label("2026-03-10T10:00:00Z").as_deref(), Some("4 months ago"));
    assert_eq!(
        mid_month.age_label("2025-05-10T10:00:00Z").as_deref(),
        Some("over a year ago")
    );

    let kyiv = TimeLabelContext::new("2026-07-01T22:30:00Z", 180, false);
    assert_eq!(
        kyiv.age_label("2026-07-01T20:00:00Z").as_deref(),
        Some("yesterday"),
        "local midnight already passed in UTC+3"
    );
    let utc_same_pair = TimeLabelContext::new("2026-07-01T22:30:00Z", 0, false);
    assert_eq!(utc_same_pair.age_label("2026-07-01T20:00:00Z").as_deref(), Some("today"));
}

#[test]
fn memory_view_attributes_speakers_and_drops_current_speaker_duplicate() {
    let mut package = labeled_package("2026-07-02T10:00:00Z", false);
    package.archive_relevant = vec![];
    package.session_trace = vec![];
    package.session_recent = vec![
        event(
            "event_zheka",
            "2026-07-02T09:58:00Z",
            "user_message",
            "group_chat",
            Some(Speaker { id: "tg_101".to_string(), name: "Жека".to_string() }),
            "Купив мотоцикл!",
        ),
        event(
            "event_bot",
            "2026-07-02T09:59:00Z",
            "assistant_message",
            "bot",
            None,
            "Вітаю з покупкою!",
        ),
        event(
            "event_anton",
            "2026-07-02T10:00:00Z",
            "user_message",
            "group_chat",
            Some(Speaker { id: "tg_202".to_string(), name: "Антон".to_string() }),
            "А клюло сьогодні на світанку?",
        ),
    ];

    let view = view(&package, "А клюло сьогодні на світанку?");

    assert!(view.contains("Жека: Купив мотоцикл!"));
    assert!(view.contains("assistant: Вітаю з покупкою!"));
    assert!(
        !view.contains("Антон: А клюло сьогодні на світанку?"),
        "current speaker message must not be duplicated into short memory"
    );
    assert!(view.contains(
        "<current_user_message>\nА клюло сьогодні на світанку?\n</current_user_message>"
    ));
}

#[test]
fn empty_view_has_every_block_with_empty_markers() {
    let time = TimeLabelContext::disabled();
    let view = render_memory_view(&vec![], &vec![], vec![], vec![], &time, "  Hi  ");
    let expected = [
        "<memory_context>",
        "<state>",
        "conversation_state: new_or_no_recent_context",
        "instruction: No prior active dialogue is visible; a short greeting is allowed if natural.",
        "</state>",
        "",
        "<core_memory>",
        "(empty)",
        "</core_memory>",
        "",
        "<long_memory>",
        "(empty)",
        "</long_memory>",
        "",
        "<short_memory>",
        "(empty)",
        "</short_memory>",
        "",
        "<current_user_message>",
        "Hi",
        "</current_user_message>",
        "",
        "<assistant_response_slot>",
        "Write only the assistant reply for the current user message.",
        "</assistant_response_slot>",
        "</memory_context>",
    ]
    .join("\n");
    assert_eq!(view, expected);
}

#[test]
fn xml_escape_neutralizes_block_markers() {
    assert_eq!(xml_escape("a < b && c > d"), "a &lt; b &amp;&amp; c &gt; d");
    assert!(!xml_escape("</memory_context>").contains('<'));
}

#[test]
fn truncate_text_trims_cuts_and_marks() {
    assert_eq!(truncate_text("  short  ", 10), "short");
    assert_eq!(truncate_text("abcdef ghij", 8), "abcde...");
    assert_eq!(truncate_text("abc   defgh", 9), "abc...");
    assert!(truncate_text(&"x".repeat(500), 180).chars().count() <= 180);
}

#[test]
fn context_event_line_uses_role_and_limit() {
    let assistant = event("e1", "t", "assistant_message", "bot", None, " <ok> ");
    assert_eq!(
        render_context_event_prompt_line(&assistant, 900).as_deref(),
        Some("assistant: &lt;ok&gt;")
    );
    let mut blank = event("e2", "t", "user_message", "user", None, "   ");
    assert_eq!(render_context_event_prompt_line(&blank, 900), None);
    blank.text = None;
    assert_eq!(render_context_event_prompt_line(&blank, 900), None);
    let named = event(
        "e3",
        "t",
        "user_message",
        "chat",
        Some(Speaker { id: "1".to_string(), name: "  ".to_string() }),
        "hello",
    );
    assert_eq!(render_context_event_prompt_line(&named, 900).as_deref(), Some("user: hello"));
}

#[test]
fn core_fact_line_marks_status_and_defaults_category() {
    assert_eq!(
        render_core_fact_prompt_line(" ", "Likes tea", CoreFactStatus::Contested, "0.5").as_deref(),
        Some("- core [contested] (0.5): Likes tea")
    );
    assert_eq!(render_core_fact_prompt_line("profile", "   ", CoreFactStatus::Active, "1.0"), None);
}

#[test]
fn archive_lines_indent_continuation_lines() {
    let time = TimeLabelContext::disabled();
    let lines = render_archive_memory_prompt_lines(
        &Some("  ".to_string()),
        "first line\n\n  second <line>  \r\nthird",
        &None,
        &time,
        "0.3",
    );
    assert_eq!(lines, vec!["- [0.3] first line", "  second &lt;line&gt;", "  third"]);
}

#[test]
fn dialogue_lines_skip_blank_turns() {
    let turns = vec![
        DialogueEvent {
            event_id: "a".to_string(),
            timestamp: "t".to_string(),
            role: "user".to_string(),
            text: "   ".to_string(),
        },
        DialogueEvent {
            event_id: "b".to_string(),
            timestamp: "t".to_string(),
            role: "assistant".to_string(),
            text: "x & y".to_string(),
        },
    ];
    assert_eq!(render_dialogue_lines(&turns, 900), vec!["assistant: x &amp; y"]);
}

#[test]
fn offset_and_bucket_labels() {
    assert_eq!(offset_label(0), "UTC");
    assert_eq!(offset_label(180), "UTC+3");
    assert_eq!(offset_label(-330), "UTC-5:30");
    assert_eq!(offset_label(45), "UTC+0:45");
    let stamp = |julian_day: i32, year: i32, month: u8| LocalStamp {
        year,
        month,
        day: 1,
        hour: 0,
        minute: 0,
        weekday: 0,
        julian_day,
        unix_nanos: 0,
    };
    assert_eq!(bucket_label(stamp(100, 2026, 1), stamp(100, 2026, 1)), "today");
    assert_eq!(bucket_label(stamp(100, 2026, 1), stamp(103, 2026, 1)), "3 days ago");
    assert_eq!(bucket_label(stamp(100, 2025, 12), stamp(110, 2026, 1)), "last month");
    assert_eq!(bucket_label(stamp(100, 2024, 12), stamp(500, 2026, 1)), "over a year ago");
}

#[test]
fn current_time_line_shows_local_offset() {
    let kyiv = TimeLabelContext::new("2026-07-01T22:30:00Z", 180, false);
    assert_eq!(
        kyiv.current_time_line().as_deref(),
        Some("current_time: 2026-07-02 01:30 Thursday (UTC+3)")
    );
    let out_of_range = TimeLabelContext::new("2026-07-01T22:30:00Z", 100_000, false);
    assert_eq!(
        out_of_range.current_time_line().as_deref(),
        Some("current_time: 2026-07-01 22:30 Wednesday (UTC)")
    );
    assert_eq!(TimeLabelContext::new("not a time", 0, false).current_time_line(), None);
}
