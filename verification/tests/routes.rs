use kyodoku::isbn::{IsbnError, IsbnMetadata, LookupError, MetadataSource};
use kyodoku::routes::{
    admit_and_add, admit_watch, book_entry, command_kind, failure_reply, format_entry, open_reply, parse_codes,
    parse_component_id, require_guild, require_string_option, watch_action, watch_added_reply,
    watch_codes, watch_list_reply, watch_removed_reply, watch_targets, CommandError, CommandKind,
    CommandOption, ComponentAction, WatchAction,
};
use kyodoku::store::DbIsbn;
use kyodoku::util::{extend_custom_id, unwatch_custom_id, watch_add_custom_id};

#[test]
fn codes_split_on_whitespace_commas_and_semicolons() {
    assert_eq!(
        parse_codes(" 978-0-306-40615-7, 4062935563;;\t0306406152\n"),
        vec!["978-0-306-40615-7".to_string(), "4062935563".to_string(), "0306406152".to_string()]
    );
    assert!(parse_codes(" ,; ").is_empty());
    assert_eq!(parse_codes("a\u{3000}b"), vec!["a".to_string(), "b".to_string()]);
}

fn opt(name: &str, text: Option<&str>) -> CommandOption {
    CommandOption { name: name.to_string(), text: text.map(|s| s.to_string()) }
}

#[test]
fn first_string_option_wins() {
    let options = vec![opt("code", None), opt("other", Some("x")), opt("code", Some("1")), opt("code", Some("2"))];
    assert_eq!(require_string_option(&options, "code"), Ok("1".to_string()));
    let e = require_string_option(&options, "codes").unwrap_err();
    assert_eq!(e, CommandError::MissingOption { name: "codes".to_string() });
    assert_eq!(e.message(), "Missing required option 'codes'");
}

#[test]
fn commands_and_subcommands() {
    assert_eq!(command_kind("open"), Ok(CommandKind::Open));
    assert_eq!(command_kind("watch"), Ok(CommandKind::Watch));
    let e = command_kind("read").unwrap_err();
    assert_eq!(e.message(), "Unknown command: read");
    assert_eq!(watch_action(Some(("add", true))), Ok(WatchAction::Add));
    assert_eq!(watch_action(Some(("remove", true))), Ok(WatchAction::Remove));
    assert_eq!(watch_action(Some(("list", true))), Ok(WatchAction::List));
    assert_eq!(watch_action(None).unwrap_err().message(), "Missing watch subcommand");
    assert_eq!(watch_action(Some(("add", false))).unwrap_err().message(), "Unexpected option for watch command");
    assert_eq!(watch_action(Some(("clear", true))).unwrap_err().message(), "Unknown watch action: clear");
    assert_eq!(require_guild(Some(3)), Ok(3));
    assert_eq!(require_guild(None).unwrap_err().message(), "Command must be used within a guild");
}

#[test]
fn watch_codes_need_at_least_one() {
    assert_eq!(watch_codes(&vec![opt("codes", Some("a b"))]), Ok(vec!["a".to_string(), "b".to_string()]));
    let e = watch_codes(&vec![opt("codes", Some(" , "))]).unwrap_err();
    assert_eq!(e, CommandError::NoCodes);
    assert_eq!(e.message(), "At least one ISBN code is required");
    assert_eq!(watch_codes(&vec![]).unwrap_err().message(), "Missing required option 'codes'");
}

#[test]
fn targets_skip_repeats_and_stop_at_bad_code() {
    let codes = vec![
        "0-306-40615-2".to_string(),
        "9780306406157".to_string(),
        "4062935563".to_string(),
        "123".to_string(),
        "9784101010014".to_string(),
    ];
    let t = watch_targets(&codes);
    let isbns: Vec<String> = t.targets.iter().map(|n| n.isbn_13.clone()).collect();
    assert_eq!(isbns, vec!["9780306406157".to_string(), "9784062935562".to_string()]);
    assert_eq!(t.targets[0].isbn_10, Some("0306406152".to_string()));
    assert_eq!(t.error, Some(IsbnError::WrongDigitCount));
    let t = watch_targets(&vec!["9780306406157".to_string()]);
    assert_eq!(t.targets.len(), 1);
    assert_eq!(t.error, None);
}

#[test]
fn replies() {
    assert_eq!(format_entry("T", &Some("S".to_string()), "978"), "- `978` **T: S**");
    assert_eq!(book_entry("978", &None), "- `978` **978**");
    let book = Some(DbIsbn {
        isbn_13: "9780306406157".to_string(),
        isbn_10: None,
        title: "T".to_string(),
        subtitle: None,
        authors: vec![],
        source: "manual".to_string(),
    });
    assert_eq!(book_entry("ignored", &book), "- `9780306406157` **T**");
    let entries = vec!["- a".to_string(), "- b".to_string()];
    assert_eq!(watch_added_reply(&entries), "Added to your watchlist:\n- a\n- b");
    assert_eq!(watch_removed_reply(&entries), "Removed from your watchlist:\n- a\n- b");
    assert_eq!(watch_list_reply(&entries), "You are watching:\n- a\n- b");
    assert_eq!(watch_added_reply(&vec![]), "No new ISBNs added to your watchlist.");
    assert_eq!(watch_removed_reply(&vec![]), "No ISBNs removed from your watchlist.");
    assert_eq!(watch_list_reply(&vec![]), "Your watchlist is empty.");
    assert_eq!(failure_reply("boom"), "❌ boom");
    let m = IsbnMetadata {
        isbn_13: "9780306406157".to_string(),
        isbn_10: None,
        title: "T".to_string(),
        subtitle: Some("S".to_string()),
        authors: vec![],
        source: MetadataSource::Manual,
    };
    assert_eq!(
        open_reply(&m, 11, 22),
        "Opened a reading session for **T: S**(`9780306406157`).\nText channel: <#11>\nVoice channel: <#22>"
    );
}

#[test]
fn error_messages_pass_through() {
    assert_eq!(CommandError::Isbn(IsbnError::InvalidIsbn13).message(), "invalid ISBN-13");
    assert_eq!(
        CommandError::Lookup(LookupError::Unresolved { isbn_13: "1".to_string() }).message(),
        "Unable to resolve metadata for ISBN 1. It may be a pre-release or newly published title; please consider adding it to Open Library (https://openlibrary.org)."
    );
    assert_eq!(CommandError::WatchlistFull { limit: 30 }.message(), "Your watchlist is full (up to 30 ISBNs).");
}

#[test]
fn button_ids_read_back() {
    assert_eq!(
        parse_component_id(&watch_add_custom_id("9780306406157")),
        Some(ComponentAction::WatchAdd { isbn_13: "9780306406157".to_string() })
    );
    assert_eq!(
        parse_component_id(&unwatch_custom_id(123456789012345678, "9780306406157")),
        Some(ComponentAction::WatchRemove { guild_id: 123456789012345678, isbn_13: "9780306406157".to_string() })
    );
    assert_eq!(
        parse_component_id(&extend_custom_id(u64::MAX)),
        Some(ComponentAction::Extend { channel_id: u64::MAX })
    );
    assert_eq!(parse_component_id("extend:abc"), None);
    assert_eq!(parse_component_id("extend:18446744073709551616"), None);
    assert_eq!(parse_component_id("watch:remove:12"), None);
    assert_eq!(parse_component_id("other"), None);
}

#[test]
fn watchlist_limit() {
    let watched = vec!["a".to_string(), "b".to_string()];
    assert_eq!(admit_watch(&watched, "c", 3), Ok(()));
    assert_eq!(admit_watch(&watched, "c", 2), Err(CommandError::WatchlistFull { limit: 2 }));
    assert_eq!(admit_watch(&watched, "a", 2), Ok(()));
    assert_eq!(admit_watch(&vec![], "a", 0), Err(CommandError::WatchlistFull { limit: 0 }));
}

#[test]
fn watch_add_fills_the_list_up_to_its_limit() {
    let mut watched = vec!["a".to_string()];
    assert_eq!(admit_and_add(&mut watched, "b", 2), Ok(()));
    assert_eq!(watched, vec!["a".to_string(), "b".to_string()]);
    // Already watched: admitted, and not listed twice.
    assert_eq!(admit_and_add(&mut watched, "a", 2), Ok(()));
    assert_eq!(watched, vec!["a".to_string(), "b".to_string()]);
    // Full: refused, and the list stays as it was.
    assert_eq!(admit_and_add(&mut watched, "c", 2), Err(CommandError::WatchlistFull { limit: 2 }));
    assert_eq!(watched, vec!["a".to_string(), "b".to_string()]);
}
