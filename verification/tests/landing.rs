use kyodoku::clock::Zone;
use kyodoku::config::Config;
use kyodoku::landing::{desired_posts, plan_message_sync, split_with_header, MessageOp, MAX_MESSAGE_LENGTH};

fn repeat_text(text: &str, count: usize) -> String {
    std::iter::repeat(text).take(count).collect::<Vec<_>>().join("")
}

#[test]
fn splits_on_section_boundaries() {
    let body = format!(
        "intro\n\n## Section A\n{}\n\n## Section B\n{}",
        repeat_text("content ", 150),
        repeat_text("more ", 150),
    );

    let messages = split_with_header("HEADER", body);

    assert_eq!(messages.len(), 2);
    assert!(messages[0].contains("## Section A"));
    assert!(!messages[0].contains("## Section B"));
    assert!(messages[1].contains("## Section B"));
    assert!(messages[0].starts_with("HEADER (1/2)\n\n"));
    assert!(!messages[1].starts_with("HEADER"));
}

#[test]
fn keeps_preamble_with_first_section() {
    let body = "intro line\n\n## Section\ncontent".to_string();

    let messages = split_with_header("HEADER", body);

    assert_eq!(messages.len(), 1);
    assert!(messages[0].starts_with("HEADER\n\n"));
    assert!(messages[0].contains("intro line\n\n## Section\ncontent"));
}

#[test]
fn short_body_is_one_message_with_exact_text() {
    let messages = split_with_header("H", "a\n## B\nc\n\n".to_string());
    assert_eq!(messages, vec!["H\n\na\n\n## B\nc".to_string()]);
}

#[test]
fn empty_body_gives_no_message() {
    assert!(split_with_header("H", String::new()).is_empty());
}

#[test]
fn crlf_lines_are_read_like_lf_lines() {
    let a = split_with_header("H", "x\r\n## S\r\ny".to_string());
    let b = split_with_header("H", "x\n## S\ny".to_string());
    assert_eq!(a, b);
}

#[test]
fn oversized_section_stays_whole_in_its_own_message() {
    let long = format!("## Big\n{}", "x".repeat(2500));
    let body = format!("intro\n\n{}\n\n## Small\ny", long);
    let messages = split_with_header("H", body);
    assert_eq!(messages.len(), 3);
    assert_eq!(messages[0], "H (1/3)\n\nintro");
    assert_eq!(messages[1], long);
    assert_eq!(messages[2], "## Small\ny");
}

#[test]
fn chunks_fit_and_keep_every_section() {
    let sections: Vec<String> = (0..12).map(|i| format!("## S{}\n{}", i, "w ".repeat(150))).collect();
    let body = sections.join("\n\n");
    let messages = split_with_header("H", body.clone());
    let n = messages.len();
    assert!(n > 1);
    let mut bodies: Vec<String> = Vec::new();
    for (i, m) in messages.iter().enumerate() {
        let text = if i == 0 {
            let prefix = format!("H (1/{})\n\n", n);
            assert!(m.starts_with(&prefix));
            m[prefix.len()..].to_string()
        } else {
            m.clone()
        };
        assert!(text.chars().count() <= MAX_MESSAGE_LENGTH);
        bodies.push(text);
    }
    assert_eq!(bodies.join("\n\n"), body);
}

fn config() -> Config {
    Config {
        discord_token: "t".to_string(),
        application_id: 1,
        database_url: "d".to_string(),
        redis_url: "r".to_string(),
        max_server_channels: 480,
        text_channel_budget: 430,
        voice_cleanup_delay_seconds: 60,
        archive_poll_interval_seconds: 86_400,
        archive_grace_period_seconds: 5_184_000,
        text_channel_delete_notice_seconds: 259_200,
        text_channel_extension_seconds: 604_800,
        command_input_channel_id: Some(5),
        text_channel_category_id: Some(6),
        text_category_prefix: "isbn-text".to_string(),
        text_category_position_base: 50,
        voice_channel_category_id: Some(7),
        archived_channel_category_id: 8,
        text_channel_capacity: 150,
        watchlist_limit: 30,
        text_channel_activity_lookback_seconds: 604_800,
        time_zone: Zone::utc(),
    }
}

#[test]
fn landing_posts_carry_headers_and_settings() {
    let (ja, en) = desired_posts(&config());
    assert!(!ja.is_empty() && !en.is_empty());
    assert!(ja[0].starts_with("# ようこそ、共読サーバーへ :books:"));
    assert!(en[0].starts_with("# Welcome to the Shared Reading Server :books:"));
    let en_all = en.join("\n\n");
    assert!(en_all.contains("after **60 seconds** of 0 participants"));
    assert!(en_all.contains("(up to **30** entries per user)"));
    assert!(en_all.contains("Up to **150** text channels remain active"));
    assert!(en_all.contains("Archives are checked every **86400 seconds**"));
    assert!(en_all.contains("deleted after **5184000 seconds**"));
    for m in ja.iter().skip(1).chain(en.iter().skip(1)) {
        assert!(m.starts_with("## "));
    }
}

#[test]
fn sync_reuses_edits_posts_and_deletes() {
    let existing = vec!["a".to_string(), "b".to_string(), "c".to_string()];
    let desired = vec!["a".to_string(), "x".to_string()];
    let ops = plan_message_sync(&existing, &desired);
    assert_eq!(
        ops,
        vec![
            MessageOp::Keep { index: 0 },
            MessageOp::Edit { index: 1, content: "x".to_string() },
            MessageOp::Delete { index: 2 },
        ]
    );
    let ops = plan_message_sync(&Vec::new(), &desired);
    assert_eq!(
        ops,
        vec![
            MessageOp::Post { content: "a".to_string() },
            MessageOp::Post { content: "x".to_string() },
        ]
    );
}

#[test]
fn sync_plan_leaves_exactly_the_wanted_messages() {
    let existing = vec!["1".to_string(), "2".to_string()];
    let desired = vec!["2".to_string(), "2".to_string(), "3".to_string()];
    let ops = plan_message_sync(&existing, &desired);
    let mut shown: Vec<String> = Vec::new();
    for op in ops {
        match op {
            MessageOp::Keep { index } => shown.push(existing[index].clone()),
            MessageOp::Edit { content, .. } | MessageOp::Post { content } => shown.push(content),
            MessageOp::Delete { .. } => {}
        }
    }
    assert_eq!(shown, desired);
}

#[test]
fn sections_open_with_headings_and_carry_no_trailing_newline() {
    let body = "pre\n\n\n## A\nx\n\n## B\ny\n\n\n".to_string();
    let messages = split_with_header("H", body);
    assert_eq!(messages, vec!["H\n\npre\n\n## A\nx\n\n## B\ny".to_string()]);
}
