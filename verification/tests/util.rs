use kyodoku::isbn::{IsbnMetadata, MetadataSource};
use kyodoku::store::DbIsbn;
use kyodoku::util::{
    activation_key, build_channel_buttons, channel_name, channel_url, cleanup_action, cleanup_key,
    cleanup_ttl, extend_custom_id, format_dm_content, format_metadata_post, new_text_channel,
    new_voice_channel, plan_channel_refresh, plan_watcher_dms, session_is_active, truncate_name,
    unwatch_custom_id, voice_transition, watch_add_custom_id, watcher_entry, ButtonSpec, ButtonTone,
    activation_step, ActivationStep, CleanupAction, VoiceTransition,
};

#[test]
fn truncate_name_preserves_ascii_boundaries() {
    let name = "a".repeat(100);
    let truncated = truncate_name(&name);

    assert_eq!(truncated.len(), 90);
    assert!(truncated.starts_with(&"a".repeat(87)));
    assert_eq!(truncated.chars().last(), Some('…'));
}

#[test]
fn truncate_name_preserves_char_boundaries_for_multibyte() {
    // "本" is 3 bytes; ensure we don't panic and keep complete characters.
    let name = "本".repeat(50); // 150 bytes
    let truncated = truncate_name(&name);

    assert!(truncated.len() < name.len());
    assert!(truncated.starts_with(&"本".repeat(29)));
    assert_eq!(truncated.chars().last(), Some('…'));
}

#[test]
fn truncate_name_keeps_short_names_and_fits_mixed_widths() {
    assert_eq!(truncate_name("short"), "short");
    assert_eq!(truncate_name(&"b".repeat(90)), "b".repeat(90));
    let mixed = format!("{}{}", "a".repeat(86), "本本本本本");
    let t = truncate_name(&mixed);
    assert_eq!(t, format!("{}…", "a".repeat(86)));
    assert!(t.len() <= 90);
}

fn metadata(isbn_10: Option<&str>, authors: Vec<&str>, subtitle: Option<&str>) -> IsbnMetadata {
    IsbnMetadata {
        isbn_13: "9784062935562".to_string(),
        isbn_10: isbn_10.map(|s| s.to_string()),
        title: "Title".to_string(),
        subtitle: subtitle.map(|s| s.to_string()),
        authors: authors.into_iter().map(|s| s.to_string()).collect(),
        source: MetadataSource::Manual,
    }
}

#[test]
fn channel_name_puts_isbn_in_full_width_brackets() {
    assert_eq!(channel_name(&metadata(None, vec![], Some("Sub"))), "Title: Sub（9784062935562）");
    assert_eq!(channel_name(&metadata(None, vec![], Some(""))), "Title（9784062935562）");
}

#[test]
fn metadata_post_lists_authors_isbn_and_link() {
    let post = format_metadata_post(&metadata(Some("4062935563"), vec!["A", "B"], None));
    assert_eq!(
        post,
        "**Title**\nA, B\nISBN-13: `9784062935562`\nhttps://www.amazon.co.jp/dp/4062935563\n\nこの本のセッションがアクティブになったときに通知を受け取るには、下のボタンからウォッチリストに追加してください。"
    );
    let post = format_metadata_post(&metadata(None, vec![], None));
    assert!(post.starts_with("**Title**\nISBN-13: `9784062935562`\nhttps://www.amazon.co.jp/s?k=9784062935562\n\n"));
}

#[test]
fn ids_urls_and_keys() {
    assert_eq!(channel_url(1, 22), "https://discord.com/channels/1/22");
    assert_eq!(unwatch_custom_id(7, "9784062935562"), "watch:remove:7:9784062935562");
    assert_eq!(watch_add_custom_id("9784062935562"), "watch:add:9784062935562");
    assert_eq!(extend_custom_id(0), "extend:0");
    assert_eq!(extend_custom_id(u64::MAX), "extend:18446744073709551615");
    assert_eq!(cleanup_key(42), "voice:cleanup:42");
    assert_eq!(activation_key(42), "voice:active:42");
}

#[test]
fn cleanup_ttl_saturates() {
    assert_eq!(cleanup_ttl(60), 120);
    assert_eq!(cleanup_ttl(u64::MAX - 10), u64::MAX);
}

#[test]
fn activation_and_cleanup_decisions() {
    assert!(!session_is_active(0));
    assert!(session_is_active(1));
    assert_eq!(cleanup_action(0), CleanupAction::Delete);
    assert_eq!(cleanup_action(3), CleanupAction::Keep);
}

#[test]
fn voice_transition_prefers_new_guild() {
    assert_eq!(
        voice_transition(Some(1), Some(2), Some(10), Some(20)),
        Some(VoiceTransition { guild_id: 2, cleanup: Some(10), activation: Some(20) })
    );
    assert_eq!(
        voice_transition(Some(1), None, Some(10), None),
        Some(VoiceTransition { guild_id: 1, cleanup: Some(10), activation: None })
    );
    assert_eq!(voice_transition(None, None, Some(10), Some(20)), None);
}

#[test]
fn channel_buttons_in_order() {
    let b = build_channel_buttons(1, Some(2), 3, Some("watch:remove:1:x".to_string()));
    assert_eq!(
        b,
        vec![
            ButtonSpec::Link { url: "https://discord.com/channels/1/3".to_string(), label: "ボイスチャンネルに参加".to_string() },
            ButtonSpec::Link { url: "https://discord.com/channels/1/2".to_string(), label: "テキストチャンネルを開く".to_string() },
            ButtonSpec::Action { custom_id: "watch:remove:1:x".to_string(), label: "ウォッチリストから削除".to_string(), tone: ButtonTone::Danger },
        ]
    );
    assert_eq!(build_channel_buttons(1, None, 3, None).len(), 1);
}

#[test]
fn watcher_dms_name_the_book() {
    let book = Some(DbIsbn {
        isbn_13: "9784062935562".to_string(),
        isbn_10: None,
        title: "T".to_string(),
        subtitle: Some("S".to_string()),
        authors: vec![],
        source: "manual".to_string(),
    });
    assert_eq!(watcher_entry("9784062935562", &book), "**T: S**(`9784062935562`)");
    assert_eq!(watcher_entry("9784062935562", &None), "Session `9784062935562`");
    let dms = plan_watcher_dms(1, 3, "9784062935562", &vec![10, 11], &book, None);
    assert_eq!(dms.len(), 2);
    assert_eq!(dms[1].user_id, 11);
    assert_eq!(
        dms[0].content,
        "Reading session for **T: S**(`9784062935562`) is now active!\nUse the buttons below to join the session."
    );
    assert_eq!(dms[0].content, format_dm_content("**T: S**(`9784062935562`)"));
    assert_eq!(dms[0].buttons, build_channel_buttons(1, None, 3, Some("watch:remove:1:9784062935562".to_string())));
}

#[test]
fn refresh_plan_edits_only_what_differs() {
    let p = plan_channel_refresh("n", Some("t"), Some(9), "n", Some("t"), Some(9), Some(8));
    assert_eq!(p.name, None);
    assert_eq!(p.topic, None);
    assert_eq!(p.category, None);
    assert_eq!(p.position, Some(0));
    assert!(p.needs_update);
    assert!(!p.unarchive);
    let p = plan_channel_refresh("old", None, Some(8), "new", Some("t"), Some(9), Some(8));
    assert_eq!(p.name, Some("new".to_string()));
    assert_eq!(p.topic, Some("t".to_string()));
    assert_eq!(p.category, Some(9));
    assert!(p.unarchive);
    let p = plan_channel_refresh("n", None, None, "n", None, None, None);
    assert!(!p.needs_update);
}

#[test]
fn new_channels_for_a_book() {
    let m = metadata(None, vec![], None);
    let t = new_text_channel(&m, Some(4));
    assert_eq!(t.name, "Title（9784062935562）");
    assert_eq!(t.topic, Some("Discussion channel for Title".to_string()));
    assert_eq!(t.category, Some(4));
    let (post, button) = t.first_post.unwrap();
    assert_eq!(post, format_metadata_post(&m));
    assert_eq!(
        button,
        ButtonSpec::Action { custom_id: "watch:add:9784062935562".to_string(), label: "ウォッチリストに追加".to_string(), tone: ButtonTone::Primary }
    );
    let v = new_voice_channel(&m, None);
    assert_eq!(v.name, "Title（9784062935562）");
    assert!(v.topic.is_none() && v.first_post.is_none() && v.category.is_none());
}

#[test]
fn truncating_twice_changes_nothing() {
    for name in ["a".repeat(100), "本".repeat(50), "short".to_string(), format!("{}本本", "a".repeat(88))] {
        let once = truncate_name(&name);
        assert_eq!(truncate_name(&once), once);
    }
}

#[test]
fn session_is_announced_once() {
    assert_eq!(activation_step(0, None, None), ActivationStep::Done);
    assert_eq!(activation_step(1, None, None), ActivationStep::ClaimFlag);
    // Another instance holds the flag: this one stays quiet.
    assert_eq!(activation_step(2, Some(false), None), ActivationStep::Done);
    assert_eq!(activation_step(2, Some(true), None), ActivationStep::Notify);
    assert_eq!(activation_step(2, Some(true), Some(true)), ActivationStep::Done);
    // Telling the watchers failed: the flag goes back for a later retry.
    assert_eq!(activation_step(2, Some(true), Some(false)), ActivationStep::ResetFlag);
}
