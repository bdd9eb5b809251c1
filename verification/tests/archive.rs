use kyodoku::archive::{
    archive_topic, deletion_dm, deletion_notice, extension_reply, archive_channel, archived_book_entry, archived_channels, channels_to_archive,
    delete_warning_content, delete_warning_dm, enforce_channel_budgets, extend_archived_channel,
    handle_archived_channel, text_category_pool, channels_to_archive_now, CategoryInfo, PoolStep,
    TEXT_CATEGORY_CHANNEL_CAP,
    extension_at, format_archive_topic, archive_pass, archive_record_at, new_archive_record, pass_fits, plan_archived_channel,
    plan_delete_warning_dms, ArchiveError, ArchiveRecord, BudgetError, BudgetReservation,
    ChannelInfo,
};
use kyodoku::clock::{Zone, LATEST_MICROS};
use kyodoku::store::DbIsbn;

fn utc() -> Zone {
    Zone::utc()
}

fn tokyo() -> Zone {
    Zone::parse("Asia/Tokyo").unwrap()
}
use kyodoku::util::{ButtonSpec, ButtonTone};

const S: i64 = 1_000_000;

#[test]
fn budgets() {
    let one = BudgetReservation { new_text_channels: 1, new_categories: 0 };
    assert_eq!(enforce_channel_budgets(10, 5, one, 480, 430), Ok(()));
    assert_eq!(enforce_channel_budgets(480, 5, one, 480, 430), Err(BudgetError::ServerChannelCap(480)));
    assert_eq!(enforce_channel_budgets(10, 430, one, 480, 430), Err(BudgetError::TextChannelBudget(430)));
    let cat = BudgetReservation { new_text_channels: 0, new_categories: 1 };
    assert_eq!(enforce_channel_budgets(480, 5, cat, 480, 430), Err(BudgetError::ServerChannelCap(480)));
    assert_eq!(
        BudgetError::ServerChannelCap(480).message(),
        "Creating this channel would exceed the server channel cap (480)."
    );
    assert_eq!(
        BudgetError::TextChannelBudget(430).message(),
        "Creating this channel would exceed the text channel budget (430)."
    );
    assert_eq!(
        BudgetError::CategoryCap(7).message(),
        "Creating an additional category would exceed the server channel cap (7)."
    );
}

fn ch(id: u64, is_text: bool, parent: Option<u64>, position: u64, last: Option<i64>) -> ChannelInfo {
    ChannelInfo { id, is_text, parent_id: parent, position, last_activity: last }
}

const DAY: i64 = 86_400 * S;

#[test]
fn overflow_of_the_pool_is_archived() {
    let now = 100 * DAY;
    let channels = vec![
        ch(10, true, Some(1), 3, Some(now - 50 * DAY)),
        ch(11, true, Some(2), 1, Some(now - 20 * DAY)),
        ch(9, true, Some(1), 1, None),
        ch(12, false, Some(1), 0, None),
        ch(13, true, Some(5), 0, None),
        ch(14, true, None, 0, None),
        ch(15, true, Some(2), 7, Some(now - DAY)),
    ];
    // Most recent first: 15, 11, 10, then 9 without messages.
    assert_eq!(channels_to_archive(&channels, &vec![1, 2], 2, now, 7 * 86_400), vec![10, 9]);
    // Channel 15 had a message within the lookback: spared even past capacity.
    assert_eq!(channels_to_archive(&channels, &vec![1, 2], 0, now, 7 * 86_400), vec![11, 10, 9]);
    assert_eq!(channels_to_archive(&channels, &vec![1, 2], 0, now, 30 * 86_400), vec![10, 9]);
    assert!(channels_to_archive(&channels, &vec![1, 2], 5, now, 7 * 86_400).is_empty());
    // Equal activity: by position, then id.
    let tied = vec![ch(3, true, Some(1), 2, None), ch(2, true, Some(1), 2, None), ch(1, true, Some(1), 5, None)];
    assert_eq!(channels_to_archive(&tied, &vec![1], 1, now, 1), vec![3, 1]);
    assert_eq!(archived_channels(&channels, 5), vec![13]);
}

fn record(archived_at: i64, expires_at: i64, notice: Option<i64>) -> ArchiveRecord {
    ArchiveRecord {
        channel_id: 1,
        guild_id: 2,
        original_category_id: 3,
        archived_at,
        expires_at,
        notice_sent_at: notice,
    }
}

#[test]
fn topics_and_warnings_in_the_configured_zone() {
    assert_eq!(
        format_archive_topic(0, 105 * S, &utc()),
        "Archived on 1970-01-01 00:00:00 UTC. Scheduled for deletion on 1970-01-01 00:01:45 UTC unless reopened or extended."
    );
    assert_eq!(
        delete_warning_content(0, &tokyo()),
        "This channel is scheduled for deletion on 1970-01-01 09:00:00 JST. Use /open or Extend to keep it alive."
    );
    assert_eq!(
        delete_warning_dm("`978`", 0, &utc()),
        "`978` is scheduled for deletion on 1970-01-01 00:00:00 UTC. Tap Extend to keep it."
    );
}

#[test]
fn pass_warns_then_deletes() {
    let r = record(0, 0, None);
    let p = plan_archived_channel(r, 100, 10, 95 * S, None, &utc());
    assert_eq!(p.grace_update, Some((100 * S, None)));
    assert_eq!(p.warning_expires_at, Some(100 * S));
    assert_eq!(p.notice_update, Some((105 * S, Some(95 * S))));
    assert!(!p.delete);
    assert_eq!(p.record.expires_at, 105 * S);
    assert_eq!(p.record.notice_sent_at, Some(95 * S));
    assert_eq!(p.topic, Some(format_archive_topic(0, 105 * S, &utc())));

    let p2 = plan_archived_channel(p.record, 100, 10, 106 * S, None, &utc());
    assert_eq!(p2.grace_update, None);
    assert_eq!(p2.warning_expires_at, None);
    assert_eq!(p2.notice_update, None);
    assert!(p2.delete);
    assert_eq!(p2.topic, None);
}

#[test]
fn pass_keeps_a_current_topic() {
    let r = record(0, 1000 * S, None);
    let topic = format_archive_topic(0, 1000 * S, &utc());
    let p = plan_archived_channel(r, 100, 10, 50 * S, Some(topic.as_str()), &utc());
    assert_eq!(p.grace_update, None);
    assert_eq!(p.warning_expires_at, None);
    assert!(!p.delete);
    assert_eq!(p.topic, None);
    assert_eq!(p.record, r);
}

#[test]
fn no_deletion_without_warning() {
    // The expiry has passed but no warning went out: the pass warns and keeps the channel.
    let r = record(0, 10 * S, None);
    let p = plan_archived_channel(r, 5, 30, 1000 * S, None, &utc());
    assert!(!p.delete);
    assert_eq!(p.record.expires_at, 1030 * S);
    assert_eq!(p.record.notice_sent_at, Some(1000 * S));
}

#[test]
fn pass_range_checks() {
    assert!(pass_fits(record(0, 0, None), 100, 10, 0));
    assert!(!pass_fits(record(0, 0, None), u64::MAX, 10, 0));
    assert!(!pass_fits(record(8_210_266_876_000_000_000, 8_210_266_876_000_000_000, None), 1_000_000, 10, 0));
}

#[test]
fn extension_moves_deadline_later_and_clears_warning() {
    let r = record(0, 50 * S, Some(40 * S));
    let x = extension_at(Some(r), 45 * S, 60, &utc()).unwrap();
    assert_eq!(x.record.expires_at, 105 * S);
    assert_eq!(x.record.notice_sent_at, None);
    assert_eq!(x.record.archived_at, 0);
    assert_eq!(x.reply, "Extended deletion deadline to 1970-01-01 00:01:45 UTC.");
    assert_eq!(x.topic, format_archive_topic(0, 105 * S, &utc()));
    let later = record(0, 500 * S, None);
    assert_eq!(extension_at(Some(later), 45 * S, 60, &utc()).unwrap().record.expires_at, 500 * S);
    assert_eq!(extension_at(None, 45 * S, 60, &utc()).unwrap_err(), ArchiveError::NotScheduled);
    assert_eq!(extension_at(Some(r), LATEST_MICROS, 1, &utc()).unwrap_err(), ArchiveError::OutOfRange);
    assert_eq!(extension_at(Some(r), 0, u64::MAX, &utc()).unwrap_err(), ArchiveError::OutOfRange);
    assert_eq!(ArchiveError::OutOfRange.message(), "The new deletion deadline is out of range.");
    assert_eq!(ArchiveError::NotScheduled.message(), "This channel is not scheduled for deletion.");
}

#[test]
fn extending_now() {
    assert_eq!(extend_archived_channel(None, 60, &utc()).unwrap_err(), ArchiveError::NotScheduled);
    let r = record(0, 0, Some(0));
    let x = extend_archived_channel(Some(r), 60, &utc()).unwrap();
    assert!(x.record.expires_at >= 60 * S);
    assert_eq!(x.record.notice_sent_at, None);
    assert_eq!(extend_archived_channel(Some(r), u64::MAX, &utc()).unwrap_err(), ArchiveError::OutOfRange);
}

#[test]
fn archiving_now() {
    let (rec, topic) = archive_channel(1, 2, None, 9, 60, &utc()).unwrap().unwrap();
    // The clock is read in microseconds: the archive instant lies after 2023.
    assert!(rec.archived_at > 1_700_000_000 * S);
    assert_eq!(rec.original_category_id, 9);
    assert_eq!(rec.expires_at, rec.archived_at + 60 * S);
    assert_eq!(rec.notice_sent_at, None);
    assert_eq!(topic, format_archive_topic(rec.archived_at, rec.expires_at, &utc()));
    assert!(archive_channel(1, 2, Some(4), 9, u64::MAX, &utc()).unwrap().is_none());
    let (at, topic) = archive_record_at(1, 2, Some(4), 9, 10 * S, 5, &utc()).unwrap();
    assert_eq!(at, record_with(1, 2, 4, 10 * S, 15 * S));
    assert_eq!(topic, format_archive_topic(10 * S, 15 * S, &utc()));
    assert!(archive_record_at(1, 2, None, 9, LATEST_MICROS, 1, &utc()).is_none());
    assert!(archive_record_at(1, 2, None, 9, 0, u64::MAX, &utc()).is_none());
    let r = new_archive_record(1, 2, Some(4), 9, 10 * S, 5);
    assert_eq!(r, record_with(1, 2, 4, 10 * S, 15 * S));
}

fn record_with(channel: u64, guild: u64, category: u64, at: i64, until: i64) -> ArchiveRecord {
    ArchiveRecord {
        channel_id: channel,
        guild_id: guild,
        original_category_id: category,
        archived_at: at,
        expires_at: until,
        notice_sent_at: None,
    }
}

#[test]
fn deletion_warning_dms() {
    let book = Some(DbIsbn {
        isbn_13: "9780306406157".to_string(),
        isbn_10: None,
        title: "T".to_string(),
        subtitle: None,
        authors: vec![],
        source: "manual".to_string(),
    });
    let entry = archived_book_entry("x", &book);
    assert_eq!(entry, "**T** (`9780306406157`)");
    assert_eq!(archived_book_entry("978", &None), "`978`");
    let dms = plan_delete_warning_dms(2, 1, &entry, &vec![7, 8], 0, &utc());
    assert_eq!(dms.len(), 2);
    assert_eq!(dms[0].user_id, 7);
    assert_eq!(dms[1].content, delete_warning_dm(&entry, 0, &utc()));
    assert_eq!(
        dms[1].buttons,
        vec![
            ButtonSpec::Action { custom_id: "extend:1".to_string(), label: "Extend".to_string(), tone: ButtonTone::Primary },
            ButtonSpec::Link { url: "https://discord.com/channels/2/1".to_string(), label: "Open Text Channel".to_string() },
        ]
    );
}

#[test]
fn wording_around_the_instants() {
    assert_eq!(
        archive_topic("A", "B"),
        "Archived on A. Scheduled for deletion on B unless reopened or extended."
    );
    assert_eq!(deletion_notice("W"), "This channel is scheduled for deletion on W. Use /open or Extend to keep it alive.");
    assert_eq!(deletion_dm("E", "W"), "E is scheduled for deletion on W. Tap Extend to keep it.");
    assert_eq!(extension_reply("W"), "Extended deletion deadline to W.");
}

#[test]
fn pass_at_an_instant() {
    let r = record(0, 0, None);
    let p = archive_pass(r, 100, 10, 95 * S, None, &utc()).unwrap();
    assert_eq!(p, plan_archived_channel(r, 100, 10, 95 * S, None, &utc()));
    assert!(archive_pass(r, 100, 10, LATEST_MICROS, None, &utc()).is_none());
    assert!(archive_pass(r, u64::MAX, 10, 95 * S, None, &utc()).is_none());
    assert!(archive_pass(r, 100, 10, -9_000_000_000_000_000_000, None, &utc()).is_none());
}

#[test]
fn pass_now_on_a_fresh_record() {
    // Archived in 1970, expiring in 2100: the pass at the current instant
    // neither warns nor deletes.
    let far = 4_102_444_800 * S;
    let r = record(0, far, None);
    let plan = handle_archived_channel(r, 60, 60, None, &utc()).unwrap().unwrap();
    assert!(!plan.delete);
    assert_eq!(plan.warning_expires_at, None);
    assert_eq!(plan.record.expires_at, far);
}

#[test]
fn clock_error_message() {
    assert_eq!(ArchiveError::ClockUnreadable.message(), "The clock could not be read.");
}

fn cat(id: u64, name: &str, position: u64, text_channels: usize) -> CategoryInfo {
    CategoryInfo { id, name: name.to_string(), position, text_channels }
}

#[test]
fn empty_pool_gets_its_first_category() {
    let cats = vec![cat(1, "voice", 0, 0)];
    assert_eq!(
        text_category_pool(&cats, "isbn-text", 50, None),
        PoolStep::Create { name: "isbn-text-1".to_string(), position: 50 }
    );
}

#[test]
fn full_pool_grows_by_one_category() {
    let cats = vec![
        cat(1, "isbn-text-1", 5, TEXT_CATEGORY_CHANNEL_CAP),
        cat(2, "voice", 0, 3),
        cat(3, "isbn-text-2", 6, TEXT_CATEGORY_CHANNEL_CAP),
    ];
    assert_eq!(
        text_category_pool(&cats, "isbn-text", 50, Some(9)),
        PoolStep::Create { name: "isbn-text-3".to_string(), position: 52 }
    );
    // Positions stay within what Discord takes.
    assert_eq!(
        text_category_pool(&cats, "isbn-text", -10, None),
        PoolStep::Create { name: "isbn-text-3".to_string(), position: 0 }
    );
}

#[test]
fn new_channels_go_to_the_topmost_category_with_room() {
    let cats = vec![
        cat(4, "isbn-text-3", 9, 10),
        cat(1, "isbn-text-1", 5, TEXT_CATEGORY_CHANNEL_CAP),
        cat(3, "isbn-text-2", 7, 49),
        cat(2, "voice", 0, 0),
    ];
    assert_eq!(
        text_category_pool(&cats, "isbn-text", 50, Some(9)),
        PoolStep::Ready { pool: vec![4, 1, 3, 9], active: 3 }
    );
    assert_eq!(
        text_category_pool(&cats, "isbn-text", 50, Some(1)),
        PoolStep::Ready { pool: vec![4, 1, 3], active: 3 }
    );
}

#[test]
fn overflow_now_matches_a_clock_reading() {
    let channels = vec![ch(10, true, Some(7), 0, None), ch(11, true, Some(7), 1, None)];
    assert_eq!(channels_to_archive_now(&channels, &vec![7], 1, 0), Ok(vec![11]));
}
