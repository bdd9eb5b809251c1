//! Channel names and topics, watcher notifications, component ids and the
//! decisions around per-ISBN text and voice channels.

use vstd::prelude::*;
use crate::isbn::{display_title, titled, IsbnMetadata};
use crate::store::DbIsbn;
use crate::text::{
    byte_len, byte_length, char_width, chars_of, decimal, join_strings, joined, lemma_byte_len_push,
    push_char, push_decimal, utf8_width, views_of,
};

verus! {

/// Prefix of the custom ids of watchlist buttons.
pub const WATCH_ACTION_PREFIX: &'static str = "watch:";

/// Prefix of the custom ids of the buttons that extend an archived channel.
pub const EXTEND_ACTION_PREFIX: &'static str = "extend:";

/// How much longer than the cleanup delay a voice cleanup lock lives.
pub const CLEANUP_TTL_BUFFER_SECONDS: u64 = 60;

/// How long, in seconds, a session stays flagged as announced.
pub const ACTIVATION_TTL_SECONDS: i64 = 600;

/// Members a voice channel needs for its session to count as active.
pub const READING_SESSION_ACTIVATION_THRESHOLD: usize = 1;

/// Longest channel name, in bytes.
pub const MAX_CHANNEL_NAME_BYTES: usize = 90;

/// Bytes left for the name itself when it is cut short (`"…"` takes three).
pub const TRUNCATED_NAME_BYTES: usize = 87;

/// Characters that fit, one after another from the start of `s`, into `limit` bytes.
pub open spec fn fit_count(s: Seq<char>, limit: nat) -> nat
    decreases s.len(),
{
    if s.len() == 0 || utf8_width(s[0]) > limit {
        0
    } else {
        1 + fit_count(s.drop_first(), (limit - utf8_width(s[0])) as nat)
    }
}

/// A channel name of at most 90 bytes: the name as is if it fits, else the
/// longest run of whole characters that fits in 87 bytes followed by `"…"`.
pub open spec fn truncated_name(name: Seq<char>) -> Seq<char> {
    if byte_len(name) <= MAX_CHANNEL_NAME_BYTES {
        name
    } else {
        name.take(fit_count(name, TRUNCATED_NAME_BYTES as nat) as int) + seq!['…']
    }
}

proof fn lemma_fit_count_step(s: Seq<char>, i: int, limit: nat)
    requires
        0 <= i < s.len(),
        byte_len(s.take(i)) + utf8_width(s[i]) <= limit,
    ensures
        byte_len(s.take(i + 1)) == byte_len(s.take(i)) + utf8_width(s[i]),
        fit_count(s.skip(i), (limit - byte_len(s.take(i))) as nat) == 1 + fit_count(
            s.skip(i + 1),
            (limit - byte_len(s.take(i + 1))) as nat,
        ),
{
    lemma_byte_len_push(s.take(i), s[i]);
    assert(s.take(i).push(s[i]) =~= s.take(i + 1));
    assert(s.skip(i).drop_first() =~= s.skip(i + 1));
}

proof fn lemma_fit_count_bytes(s: Seq<char>, limit: nat)
    ensures
        fit_count(s, limit) <= s.len(),
        byte_len(s.take(fit_count(s, limit) as int)) <= limit,
    decreases s.len(),
{
    if s.len() > 0 && utf8_width(s[0]) <= limit {
        let rest = (limit - utf8_width(s[0])) as nat;
        lemma_fit_count_bytes(s.drop_first(), rest);
        let k = fit_count(s.drop_first(), rest);
        assert(s.take((k + 1) as int).drop_first() =~= s.drop_first().take(k as int));
    } else {
        assert(s.take(0) =~= Seq::<char>::empty());
    }
}

/// Shortens a channel name to at most 90 bytes without splitting a character.
pub fn truncate_name(name: &str) -> (t: String)
    requires
        byte_len(name@) <= usize::MAX,
    ensures
        t@ == truncated_name(name@),
{
    if byte_length(name) <= MAX_CHANNEL_NAME_BYTES {
        return String::from_str(name);
    }
    let chars = chars_of(name);
    let mut truncated = String::new();
    let mut used: usize = 0;
    let mut i: usize = 0;
    let ghost s = name@;
    assert(s.skip(0) =~= s);
    assert(s.take(0) =~= Seq::<char>::empty());
    while i < chars.len() && used + char_width(chars[i]) <= TRUNCATED_NAME_BYTES
        invariant
            i <= chars@.len(),
            chars@ == s,
            truncated@ == s.take(i as int),
            used == byte_len(s.take(i as int)),
            used <= TRUNCATED_NAME_BYTES,
            fit_count(s, TRUNCATED_NAME_BYTES as nat) == i + fit_count(
                s.skip(i as int),
                (TRUNCATED_NAME_BYTES - used) as nat,
            ),
        decreases chars.len() - i,
    {
        let w = char_width(chars[i]);
        proof {
            lemma_fit_count_step(s, i as int, TRUNCATED_NAME_BYTES as nat);
        }
        push_char(&mut truncated, chars[i]);
        assert(s.take(i as int).push(s[i as int]) =~= s.take(i + 1));
        used += w;
        i += 1;
    }
    proof {
        if i == chars.len() {
            assert(s.skip(i as int) =~= Seq::<char>::empty());
        } else {
            assert(s.skip(i as int)[0] == s[i as int]);
        }
        assert(truncated@.push('…') =~= s.take(i as int) + seq!['…']);
    }
    push_char(&mut truncated, '…');
    truncated
}

/// Truncated channel names never exceed 90 bytes, and a name that fits is
/// kept as it is.
pub proof fn law_truncated_name_fits(name: Seq<char>)
    ensures
        byte_len(truncated_name(name)) <= MAX_CHANNEL_NAME_BYTES,
        byte_len(name) <= MAX_CHANNEL_NAME_BYTES ==> truncated_name(name) == name,
{
    if byte_len(name) > MAX_CHANNEL_NAME_BYTES {
        let k = fit_count(name, TRUNCATED_NAME_BYTES as nat);
        lemma_fit_count_bytes(name, TRUNCATED_NAME_BYTES as nat);
        lemma_byte_len_push(name.take(k as int), '…');
        assert(name.take(k as int) + seq!['…'] =~= name.take(k as int).push('…'));
    }
}

/// Truncating is idempotent: a truncated name is left as it is.
pub proof fn law_truncate_idempotent(name: Seq<char>)
    ensures
        truncated_name(truncated_name(name)) == truncated_name(name),
{
    law_truncated_name_fits(name);
}

/// The name of a book's channels: `title（isbn_13）`, shortened to fit.
pub open spec fn channel_name_text(title: Seq<char>, isbn_13: Seq<char>) -> Seq<char> {
    truncated_name(title + "（"@ + isbn_13 + "）"@)
}

/// The name of the text and voice channels of a book.
pub fn channel_name(metadata: &IsbnMetadata) -> (n: String)
    requires
        byte_len(titled(metadata.title@, metadata.subtitle.deep_view()) + "（"@ + metadata.isbn_13@
            + "）"@) <= usize::MAX,
    ensures
        n@ == channel_name_text(
            titled(metadata.title@, metadata.subtitle.deep_view()),
            metadata.isbn_13@,
        ),
{
    let mut full = metadata.display_title();
    full.append("（");
    full.append(metadata.isbn_13.as_str());
    full.append("）");
    truncate_name(full.as_str())
}

/// The topic of a book's text channel.
pub fn text_channel_topic(metadata: &IsbnMetadata) -> (t: String)
    ensures
        t@ == "Discussion channel for "@ + titled(metadata.title@, metadata.subtitle.deep_view()),
{
    let mut t = String::from_str("Discussion channel for ");
    let title = metadata.display_title();
    t.append(title.as_str());
    t
}

/// The link to a channel of a guild.
pub open spec fn channel_url_text(guild_id: u64, channel_id: u64) -> Seq<char> {
    "https://discord.com/channels/"@ + decimal(guild_id as nat) + "/"@ + decimal(channel_id as nat)
}

/// The link to a channel of a guild.
pub fn channel_url(guild_id: u64, channel_id: u64) -> (u: String)
    ensures
        u@ == channel_url_text(guild_id, channel_id),
{
    let mut u = String::from_str("https://discord.com/channels/");
    push_decimal(&mut u, guild_id);
    u.append("/");
    push_decimal(&mut u, channel_id);
    u
}

/// Custom id of the button that removes an ISBN from a watchlist.
pub fn unwatch_custom_id(guild_id: u64, isbn_13: &str) -> (id: String)
    ensures
        id@ == WATCH_ACTION_PREFIX@ + "remove:"@ + decimal(guild_id as nat) + ":"@ + isbn_13@,
{
    let mut id = String::from_str(WATCH_ACTION_PREFIX);
    id.append("remove:");
    push_decimal(&mut id, guild_id);
    id.append(":");
    id.append(isbn_13);
    id
}

/// Custom id of the button that adds an ISBN to a watchlist.
pub fn watch_add_custom_id(isbn_13: &str) -> (id: String)
    ensures
        id@ == WATCH_ACTION_PREFIX@ + "add:"@ + isbn_13@,
{
    let mut id = String::from_str(WATCH_ACTION_PREFIX);
    id.append("add:");
    id.append(isbn_13);
    id
}

/// Custom id of the button that extends an archived channel.
pub fn extend_custom_id(channel_id: u64) -> (id: String)
    ensures
        id@ == EXTEND_ACTION_PREFIX@ + decimal(channel_id as nat),
{
    let mut id = String::from_str(EXTEND_ACTION_PREFIX);
    push_decimal(&mut id, channel_id);
    id
}

/// The DM text announcing that a reading session became active.
pub fn format_dm_content(entry: &str) -> (c: String)
    ensures
        c@ == "Reading session for "@ + entry@ + " is now active!\n"@
            + "Use the buttons below to join the session."@,
{
    let mut c = String::from_str("Reading session for ");
    c.append(entry);
    c.append(" is now active!\n");
    c.append("Use the buttons below to join the session.");
    c
}

/// The first post of a new text channel: title, authors, ISBN and a shop link.
pub open spec fn metadata_post_text(m: IsbnMetadata) -> Seq<char> {
    "**"@ + titled(m.title@, m.subtitle.deep_view()) + "**\n"@ + (if m.authors@.len() > 0 {
        joined(views_of(m.authors@), ", "@) + "\n"@
    } else {
        Seq::empty()
    }) + "ISBN-13: `"@ + m.isbn_13@ + "`\n"@ + (match m.isbn_10 {
        Some(isbn_10) => "https://www.amazon.co.jp/dp/"@ + isbn_10@,
        None => "https://www.amazon.co.jp/s?k="@ + m.isbn_13@,
    }) + METADATA_POST_FOOTER@
}

/// The closing line of a text channel's first post.
pub const METADATA_POST_FOOTER: &'static str = "\n\nこの本のセッションがアクティブになったときに通知を受け取るには、下のボタンからウォッチリストに追加してください。";

/// The first post of a new text channel.
pub fn format_metadata_post(metadata: &IsbnMetadata) -> (c: String)
    ensures
        c@ == metadata_post_text(*metadata),
{
    let mut c = String::from_str("**");
    let title = metadata.display_title();
    c.append(title.as_str());
    c.append("**\n");
    if metadata.authors.len() > 0 {
        let authors = join_strings(&metadata.authors, ", ");
        c.append(authors.as_str());
        c.append("\n");
    }
    c.append("ISBN-13: `");
    c.append(metadata.isbn_13.as_str());
    c.append("`\n");
    match &metadata.isbn_10 {
        Some(isbn_10) => {
            c.append("https://www.amazon.co.jp/dp/");
            c.append(isbn_10.as_str());
        },
        None => {
            c.append("https://www.amazon.co.jp/s?k=");
            c.append(metadata.isbn_13.as_str());
        },
    }
    c.append(METADATA_POST_FOOTER);
    c
}

/// How a book is named in a session DM: its title when known, else the ISBN.
pub fn watcher_entry(isbn_13: &str, book: &Option<DbIsbn>) -> (e: String)
    ensures
        e@ == (match book {
            Some(b) => "**"@ + titled(b.title@, b.subtitle.deep_view()) + "**(`"@ + isbn_13@
                + "`)"@,
            None => "Session `"@ + isbn_13@ + "`"@,
        }),
{
    match book {
        Some(b) => {
            let mut e = String::from_str("**");
            let title = display_title(b.title.as_str(), &b.subtitle);
            e.append(title.as_str());
            e.append("**(`");
            e.append(isbn_13);
            e.append("`)");
            e
        },
        None => {
            let mut e = String::from_str("Session `");
            e.append(isbn_13);
            e.append("`");
            e
        },
    }
}

/// Colour of an action button.
#[derive(Debug, Clone, Copy, PartialEq, Eq)]
pub enum ButtonTone {
    Primary,
    Danger,
}

/// A message button: a link, or an action the bot handles by its custom id.
#[derive(Debug, Clone, PartialEq, Eq)]
pub enum ButtonSpec {
    Link { url: String, label: String },
    Action { custom_id: String, label: String, tone: ButtonTone },
}

/// `buttons` is the row of a session DM: join the voice channel, open the
/// text channel (when there is one), leave the watchlist (when asked for).
pub open spec fn channel_buttons(
    buttons: Seq<ButtonSpec>,
    guild_id: u64,
    text_channel: Option<u64>,
    voice_channel: u64,
    remove_custom_id: Option<Seq<char>>,
) -> bool {
    &&& buttons.len() == 1 + (if text_channel is Some {
        1int
    } else {
        0
    }) + (if remove_custom_id is Some {
        1int
    } else {
        0
    })
    &&& buttons[0] matches ButtonSpec::Link { url, label } && url@ == channel_url_text(
        guild_id,
        voice_channel,
    ) && label@ == "ボイスチャンネルに参加"@
    &&& text_channel matches Some(t) ==> (buttons[1] matches ButtonSpec::Link { url, label }
        && url@ == channel_url_text(guild_id, t) && label@ == "テキストチャンネルを開く"@)
    &&& remove_custom_id matches Some(id) ==> (buttons.last() matches ButtonSpec::Action {
        custom_id,
        label,
        tone,
    } && custom_id@ == id && label@ == "ウォッチリストから削除"@ && tone == ButtonTone::Danger)
}

/// The row of buttons in a session DM: join the voice channel, open the text
/// channel (when there is one), leave the watchlist (when asked for).
pub fn build_channel_buttons(
    guild_id: u64,
    text_channel: Option<u64>,
    voice_channel: u64,
    remove_custom_id: Option<String>,
) -> (buttons: Vec<ButtonSpec>)
    ensures
        channel_buttons(buttons@, guild_id, text_channel, voice_channel, remove_custom_id.deep_view()),
{
    let mut buttons: Vec<ButtonSpec> = Vec::new();
    buttons.push(
        ButtonSpec::Link {
            url: channel_url(guild_id, voice_channel),
            label: String::from_str("ボイスチャンネルに参加"),
        },
    );
    match text_channel {
        Some(t) => {
            buttons.push(
                ButtonSpec::Link {
                    url: channel_url(guild_id, t),
                    label: String::from_str("テキストチャンネルを開く"),
                },
            );
        },
        None => {},
    }
    match remove_custom_id {
        Some(custom_id) => {
            buttons.push(
                ButtonSpec::Action {
                    custom_id,
                    label: String::from_str("ウォッチリストから削除"),
                    tone: ButtonTone::Danger,
                },
            );
        },
        None => {},
    }
    buttons
}

/// The button under a new text channel's first post.
pub fn watch_button(isbn_13: &str) -> (b: ButtonSpec)
    ensures
        b matches ButtonSpec::Action { custom_id, label, tone } && custom_id@
            == WATCH_ACTION_PREFIX@ + "add:"@ + isbn_13@ && label@ == "ウォッチリストに追加"@
            && tone == ButtonTone::Primary,
{
    ButtonSpec::Action {
        custom_id: watch_add_custom_id(isbn_13),
        label: String::from_str("ウォッチリストに追加"),
        tone: ButtonTone::Primary,
    }
}

/// Redis key of the cleanup lock of a voice channel.
pub fn cleanup_key(channel_id: u64) -> (k: String)
    ensures
        k@ == "voice:cleanup:"@ + decimal(channel_id as nat),
{
    let mut k = String::from_str("voice:cleanup:");
    push_decimal(&mut k, channel_id);
    k
}

/// Redis key of the flag that a voice channel's session was announced.
pub fn activation_key(channel_id: u64) -> (k: String)
    ensures
        k@ == "voice:active:"@ + decimal(channel_id as nat),
{
    let mut k = String::from_str("voice:active:");
    push_decimal(&mut k, channel_id);
    k
}

/// How long the cleanup lock lives: the delay plus a buffer, saturating.
pub fn cleanup_ttl(cleanup_delay: u64) -> (ttl: u64)
    ensures
        ttl == if cleanup_delay + CLEANUP_TTL_BUFFER_SECONDS > u64::MAX {
            u64::MAX as int
        } else {
            cleanup_delay + CLEANUP_TTL_BUFFER_SECONDS
        },
{
    cleanup_delay.saturating_add(CLEANUP_TTL_BUFFER_SECONDS)
}

/// Whether a voice channel with `member_count` members holds an active session.
pub fn session_is_active(member_count: usize) -> (b: bool)
    ensures
        b == (member_count >= READING_SESSION_ACTIVATION_THRESHOLD),
{
    member_count >= READING_SESSION_ACTIVATION_THRESHOLD
}

/// The next step in announcing a voice session once, whatever the number of
/// bot instances: a shared flag is claimed before the watchers are told, and
/// given back when telling them failed.
#[derive(Debug, Clone, Copy, PartialEq, Eq)]
pub enum ActivationStep {
    /// Nothing (more) to do.
    Done,
    /// Claim the channel's activation flag, with its time to live.
    ClaimFlag,
    /// The flag is ours: tell the watchers.
    Notify,
    /// Telling the watchers failed: reset the flag so a later join retries.
    ResetFlag,
}

/// The step after what has happened so far: `flag_newly_set` is `None` until
/// the flag was claimed, then whether this claim set it; `notify_ok` is `None`
/// until the watchers were told, then whether that worked.
pub open spec fn activation_next(
    member_count: nat,
    flag_newly_set: Option<bool>,
    notify_ok: Option<bool>,
) -> ActivationStep {
    if member_count < READING_SESSION_ACTIVATION_THRESHOLD {
        ActivationStep::Done
    } else {
        match flag_newly_set {
            None => ActivationStep::ClaimFlag,
            Some(false) => ActivationStep::Done,
            Some(true) => match notify_ok {
                None => ActivationStep::Notify,
                Some(true) => ActivationStep::Done,
                Some(false) => ActivationStep::ResetFlag,
            },
        }
    }
}

/// The next step in announcing the session of a voice channel with
/// `member_count` members (see `activation_next`).
pub fn activation_step(member_count: usize, flag_newly_set: Option<bool>, notify_ok: Option<bool>) -> (s:
    ActivationStep)
    ensures
        s == activation_next(member_count as nat, flag_newly_set, notify_ok),
{
    if !session_is_active(member_count) {
        return ActivationStep::Done;
    }
    match flag_newly_set {
        None => ActivationStep::ClaimFlag,
        Some(false) => ActivationStep::Done,
        Some(true) => match notify_ok {
            None => ActivationStep::Notify,
            Some(true) => ActivationStep::Done,
            Some(false) => ActivationStep::ResetFlag,
        },
    }
}

/// Watchers are told only by the instance whose claim set the flag, only once
/// it has, and only while the channel holds a session; the flag is reset only
/// after that instance failed to tell them.
pub proof fn law_notify_only_after_own_claim(
    member_count: nat,
    flag_newly_set: Option<bool>,
    notify_ok: Option<bool>,
)
    ensures
        activation_next(member_count, flag_newly_set, notify_ok) == ActivationStep::Notify ==> {
            &&& member_count >= READING_SESSION_ACTIVATION_THRESHOLD
            &&& flag_newly_set == Some(true)
            &&& notify_ok is None
        },
        activation_next(member_count, flag_newly_set, notify_ok) == ActivationStep::ResetFlag ==> {
            &&& flag_newly_set == Some(true)
            &&& notify_ok == Some(false)
        },
        activation_next(member_count, Some(false), notify_ok) == ActivationStep::Done,
{
}

/// The edits that bring an existing channel in line with what it should be.
#[derive(Debug, Clone, PartialEq, Eq)]
pub struct ChannelEditPlan {
    pub name: Option<String>,
    pub topic: Option<String>,
    pub category: Option<u64>,
    pub position: Option<u64>,
    pub needs_update: bool,
    /// The channel sits in the archive category: its archive record is dropped.
    pub unarchive: bool,
}

/// Plans the refresh of an existing per-ISBN channel: rename it, reset its
/// topic (when `desired_topic` is given), and, when there is a category,
/// move it into that category (if elsewhere) and to the top. A channel
/// found in `archive_category` is active again.
pub fn plan_channel_refresh(
    current_name: &str,
    current_topic: Option<&str>,
    current_parent: Option<u64>,
    desired_name: &str,
    desired_topic: Option<&str>,
    category: Option<u64>,
    archive_category: Option<u64>,
) -> (p: ChannelEditPlan)
    ensures
        p.unarchive == (archive_category is Some && current_parent == archive_category),
        p.name matches Some(n) ==> n@ == desired_name@,
        p.name is Some <==> current_name@ != desired_name@,
        p.topic is Some <==> (desired_topic matches Some(t) && (current_topic matches Some(c)
            ==> c@ != t@)),
        p.topic matches Some(t) ==> t@ == desired_topic->Some_0@,
        p.category == (match category {
            Some(c) => if current_parent == Some(c) {
                None
            } else {
                Some(c)
            },
            None => None,
        }),
        p.position == (if category is Some {
            Some(0u64)
        } else {
            None
        }),
        p.needs_update == (p.name is Some || p.topic is Some || category is Some),
{
    let name_differs = !str_eq(current_name, desired_name);
    let name = if name_differs {
        Some(String::from_str(desired_name))
    } else {
        None
    };
    let topic = match desired_topic {
        Some(t) => {
            let same = match current_topic {
                Some(c) => str_eq(c, t),
                None => false,
            };
            if same {
                None
            } else {
                Some(String::from_str(t))
            }
        },
        None => None,
    };
    let (cat, position) = match category {
        Some(c) => {
            let moved = match current_parent {
                Some(p) => p != c,
                None => true,
            };
            (if moved {
                Some(c)
            } else {
                None
            }, Some(0u64))
        },
        None => (None, None),
    };
    let needs_update = name.is_some() || topic.is_some() || category.is_some();
    let unarchive = match (archive_category, current_parent) {
        (Some(a), Some(p)) => a == p,
        _ => false,
    };
    ChannelEditPlan { name, topic, category: cat, position, needs_update, unarchive }
}

/// Whether two strings hold the same characters.
pub fn str_eq(a: &str, b: &str) -> (r: bool)
    ensures
        r == (a@ == b@),
{
    let x = chars_of(a);
    let y = chars_of(b);
    if x.len() != y.len() {
        return false;
    }
    let mut i: usize = 0;
    while i < x.len()
        invariant
            i <= x@.len() == y@.len(),
            x@ == a@,
            y@ == b@,
            forall|j: int| 0 <= j < i ==> x@[j] == y@[j],
        decreases x.len() - i,
    {
        if x[i] != y[i] {
            return false;
        }
        i += 1;
    }
    assert(x@ =~= y@);
    true
}

/// A session DM: who gets it, what it says, and its buttons.
#[derive(Debug, Clone, PartialEq, Eq)]
pub struct SessionDm {
    pub user_id: u64,
    pub content: String,
    pub buttons: Vec<ButtonSpec>,
}

/// How a book is named in a session DM.
pub open spec fn watcher_entry_text(isbn_13: Seq<char>, book: Option<DbIsbn>) -> Seq<char> {
    match book {
        Some(b) => "**"@ + titled(b.title@, b.subtitle.deep_view()) + "**(`"@ + isbn_13 + "`)"@,
        None => "Session `"@ + isbn_13 + "`"@,
    }
}

/// The DMs announcing that the session of `isbn_13` in `voice_channel` became
/// active: one to each watcher, in order, naming the book and offering to
/// join the voice channel, open the text channel and leave the watchlist.
pub fn plan_watcher_dms(
    guild_id: u64,
    voice_channel: u64,
    isbn_13: &str,
    watchers: &Vec<u64>,
    book: &Option<DbIsbn>,
    text_channel: Option<u64>,
) -> (dms: Vec<SessionDm>)
    ensures
        dms@.len() == watchers@.len(),
        forall|k: int|
            0 <= k < dms@.len() ==> {
                &&& (#[trigger] dms@[k]).user_id == watchers@[k]
                &&& dms@[k].content@ == "Reading session for "@ + watcher_entry_text(
                    isbn_13@,
                    *book,
                ) + " is now active!\n"@ + "Use the buttons below to join the session."@
                &&& channel_buttons(
                    dms@[k].buttons@,
                    guild_id,
                    text_channel,
                    voice_channel,
                    Some(WATCH_ACTION_PREFIX@ + "remove:"@ + decimal(guild_id as nat) + ":"@
                        + isbn_13@),
                )
            },
{
    let entry = watcher_entry(isbn_13, book);
    let mut dms: Vec<SessionDm> = Vec::new();
    let mut i: usize = 0;
    while i < watchers.len()
        invariant
            i <= watchers@.len(),
            dms@.len() == i,
            entry@ == watcher_entry_text(isbn_13@, *book),
            forall|k: int|
                0 <= k < i ==> {
                    &&& (#[trigger] dms@[k]).user_id == watchers@[k]
                    &&& dms@[k].content@ == "Reading session for "@ + watcher_entry_text(
                        isbn_13@,
                        *book,
                    ) + " is now active!\n"@ + "Use the buttons below to join the session."@
                    &&& channel_buttons(
                        dms@[k].buttons@,
                        guild_id,
                        text_channel,
                        voice_channel,
                        Some(WATCH_ACTION_PREFIX@ + "remove:"@ + decimal(guild_id as nat) + ":"@
                            + isbn_13@),
                    )
                },
        decreases watchers.len() - i,
    {
        let content = format_dm_content(entry.as_str());
        let remove = unwatch_custom_id(guild_id, isbn_13);
        let buttons = build_channel_buttons(guild_id, text_channel, voice_channel, Some(remove));
        dms.push(SessionDm { user_id: watchers[i], content, buttons });
        i += 1;
    }
    dms
}

/// What the bot does on a voice state update: the guild, the channel left
/// (whose cleanup is scheduled) and the channel joined (whose session may
/// have become active).
#[derive(Debug, Clone, Copy, PartialEq, Eq)]
pub struct VoiceTransition {
    pub guild_id: u64,
    pub cleanup: Option<u64>,
    pub activation: Option<u64>,
}

/// The transition of a voice state update, from the guild and channel before
/// and after; `None` when neither state names a guild.
pub fn voice_transition(
    old_guild: Option<u64>,
    new_guild: Option<u64>,
    old_channel: Option<u64>,
    new_channel: Option<u64>,
) -> (t: Option<VoiceTransition>)
    ensures
        t == (match (new_guild, old_guild) {
            (Some(g), _) => Some(
                VoiceTransition { guild_id: g, cleanup: old_channel, activation: new_channel },
            ),
            (None, Some(g)) => Some(
                VoiceTransition { guild_id: g, cleanup: old_channel, activation: new_channel },
            ),
            (None, None) => None,
        }),
{
    let guild = match new_guild {
        Some(g) => Some(g),
        None => old_guild,
    };
    match guild {
        Some(g) => Some(VoiceTransition { guild_id: g, cleanup: old_channel, activation: new_channel }),
        None => None,
    }
}

/// What the end of a voice channel's cleanup delay brings.
#[derive(Debug, Clone, Copy, PartialEq, Eq)]
pub enum CleanupAction {
    /// Someone is in the channel: keep it, and release the cleanup lock.
    Keep,
    /// The channel is empty: delete it, end its session, release the lock.
    Delete,
}

/// The cleanup of a voice channel with `member_count` members in it.
pub fn cleanup_action(member_count: usize) -> (a: CleanupAction)
    ensures
        a == (if member_count > 0 {
            CleanupAction::Keep
        } else {
            CleanupAction::Delete
        }),
{
    if member_count > 0 {
        CleanupAction::Keep
    } else {
        CleanupAction::Delete
    }
}

/// A channel to create for a book.
#[derive(Debug, Clone, PartialEq, Eq)]
pub struct NewChannel {
    pub name: String,
    pub topic: Option<String>,
    pub category: Option<u64>,
    /// The first post, and the button under it.
    pub first_post: Option<(String, ButtonSpec)>,
}

/// The text channel of a book: its name, topic and category, and a first
/// post with the book's details and a button to watch it.
pub fn new_text_channel(metadata: &IsbnMetadata, category: Option<u64>) -> (c: NewChannel)
    requires
        byte_len(titled(metadata.title@, metadata.subtitle.deep_view()) + "（"@ + metadata.isbn_13@
            + "）"@) <= usize::MAX,
    ensures
        c.name@ == channel_name_text(
            titled(metadata.title@, metadata.subtitle.deep_view()),
            metadata.isbn_13@,
        ),
        c.topic matches Some(t) && t@ == "Discussion channel for "@ + titled(
            metadata.title@,
            metadata.subtitle.deep_view(),
        ),
        c.category == category,
        c.first_post matches Some((post, button)) && post@ == metadata_post_text(*metadata) && (
        button matches ButtonSpec::Action { custom_id, label, tone } && custom_id@
            == WATCH_ACTION_PREFIX@ + "add:"@ + metadata.isbn_13@ && label@ == "ウォッチリストに追加"@
            && tone == ButtonTone::Primary),
{
    NewChannel {
        name: channel_name(metadata),
        topic: Some(text_channel_topic(metadata)),
        category,
        first_post: Some((format_metadata_post(metadata), watch_button(metadata.isbn_13.as_str()))),
    }
}

/// The voice channel of a book: its name and category.
pub fn new_voice_channel(metadata: &IsbnMetadata, category: Option<u64>) -> (c: NewChannel)
    requires
        byte_len(titled(metadata.title@, metadata.subtitle.deep_view()) + "（"@ + metadata.isbn_13@
            + "）"@) <= usize::MAX,
    ensures
        c.name@ == channel_name_text(
            titled(metadata.title@, metadata.subtitle.deep_view()),
            metadata.isbn_13@,
        ),
        c.topic is None,
        c.category == category,
        c.first_post is None,
{
    NewChannel { name: channel_name(metadata), topic: None, category, first_post: None }
}

} // verus!
