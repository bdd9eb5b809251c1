//! The slash commands: `/open <code>` and `/watch add|remove|list`.
//!
//! The library reads the command's options, splits and normalises the codes,
//! decides which books a `/watch` call touches and writes every reply; the
//! catalogue lookups and database writes between those steps are the
//! caller's.

use vstd::prelude::*;
use crate::isbn::{
    display_title, isbn_error_text, law_normalized_isbn13_is_valid, lookup_error_text, normalize, normalized, titled,
    valid_isbn13, IsbnError, IsbnMetadata, LookupError, NormalizedIsbn,
};
use crate::store::DbIsbn;
use crate::text::{
    all_digits, chars_of, decimal, is_ascii_digit, is_unicode_whitespace, is_whitespace, join_strings, joined,
    push_chars, push_decimal, string_of, views_of,
};
use crate::config::{law_parse_reads_decimal, lemma_decimal_digits, parse_unsigned, parse_unsigned_str, ParseIntKind};
use crate::util::{str_eq, EXTEND_ACTION_PREFIX, WATCH_ACTION_PREFIX};

verus! {

/// Characters that separate the codes of `/watch add` and `/watch remove`.
pub open spec fn is_code_separator(c: char) -> bool {
    is_unicode_whitespace(c) || c == ',' || c == ';'
}

/// Reading `s` left to right: the codes completed so far and the code
/// being read.
pub open spec fn code_scan(s: Seq<char>) -> (Seq<Seq<char>>, Seq<char>)
    decreases s.len(),
{
    if s.len() == 0 {
        (Seq::empty(), Seq::empty())
    } else {
        let (done, cur) = code_scan(s.drop_last());
        if is_code_separator(s.last()) {
            if cur.len() > 0 {
                (done.push(cur), Seq::empty())
            } else {
                (done, cur)
            }
        } else {
            (done, cur.push(s.last()))
        }
    }
}

/// The codes in `s`: its maximal runs of non-separator characters, in order.
pub open spec fn codes_in(s: Seq<char>) -> Seq<Seq<char>> {
    let (done, cur) = code_scan(s);
    if cur.len() > 0 {
        done.push(cur)
    } else {
        done
    }
}

/// Splits the codes of a `/watch` call on whitespace, commas and
/// semicolons, dropping empty pieces.
pub fn parse_codes(input: &str) -> (codes: Vec<String>)
    ensures
        views_of(codes@) == codes_in(input@),
{
    let chars = chars_of(input);
    let mut codes: Vec<String> = Vec::new();
    let mut cur: Vec<char> = Vec::new();
    let mut i: usize = 0;
    while i < chars.len()
        invariant
            i <= chars.len(),
            chars@ == input@,
            views_of(codes@) == code_scan(chars@.take(i as int)).0,
            cur@ == code_scan(chars@.take(i as int)).1,
        decreases chars.len() - i,
    {
        assert(chars@.take(i + 1).drop_last() =~= chars@.take(i as int));
        let c = chars[i];
        if is_whitespace(c) || c == ',' || c == ';' {
            if cur.len() > 0 {
                let code = string_of(cur.as_slice());
                let ghost before = codes@;
                codes.push(code);
                assert(views_of(codes@) =~= views_of(before).push(cur@));
                cur = Vec::new();
            }
        } else {
            cur.push(c);
        }
        i += 1;
    }
    assert(chars@.take(chars.len() as int) =~= chars@);
    if cur.len() > 0 {
        let code = string_of(cur.as_slice());
        let ghost before = codes@;
        codes.push(code);
        assert(views_of(codes@) =~= views_of(before).push(cur@));
    }
    codes
}

/// What `code_scan` keeps: completed codes are non-empty and hold no
/// separator, and neither does the code being read.
proof fn lemma_code_scan_clean(s: Seq<char>)
    ensures
        forall|k: int|
            0 <= k < code_scan(s).0.len() ==> (#[trigger] code_scan(s).0[k]).len() > 0,
        forall|k: int, j: int|
            0 <= k < code_scan(s).0.len() && 0 <= j < code_scan(s).0[k].len()
                ==> !is_code_separator(#[trigger] code_scan(s).0[k][j]),
        forall|j: int|
            0 <= j < code_scan(s).1.len() ==> !is_code_separator(#[trigger] code_scan(s).1[j]),
    decreases s.len(),
{
    if s.len() > 0 {
        lemma_code_scan_clean(s.drop_last());
        let (done, cur) = code_scan(s.drop_last());
        if is_code_separator(s.last()) && cur.len() > 0 {
            let now = code_scan(s).0;
            assert(now == done.push(cur));
            assert forall|k: int| 0 <= k < now.len() implies (#[trigger] now[k]).len() > 0 by {
                if k < done.len() {
                    assert(now[k] == done[k]);
                    assert(done[k] == code_scan(s.drop_last()).0[k]);
                }
            }
            assert forall|k: int, j: int|
                0 <= k < now.len() && 0 <= j < now[k].len() implies !is_code_separator(
                #[trigger] now[k][j],
            ) by {
                if k < done.len() {
                    assert(now[k] == done[k]);
                    assert(done[k][j] == code_scan(s.drop_last()).0[k][j]);
                } else {
                    assert(now[k] == cur);
                    assert(cur[j] == code_scan(s.drop_last()).1[j]);
                }
            }
        }
    }
}

/// Every code that `parse_codes` gives is non-empty and holds no
/// whitespace, comma or semicolon.
pub proof fn law_codes_are_clean(s: Seq<char>)
    ensures
        forall|k: int| 0 <= k < codes_in(s).len() ==> (#[trigger] codes_in(s)[k]).len() > 0,
        forall|k: int, j: int|
            0 <= k < codes_in(s).len() && 0 <= j < codes_in(s)[k].len() ==> !is_code_separator(
                #[trigger] codes_in(s)[k][j],
            ),
{
    lemma_code_scan_clean(s);
    let (done, cur) = code_scan(s);
    if cur.len() > 0 {
        assert forall|k: int| 0 <= k < codes_in(s).len() implies (#[trigger] codes_in(s)[k]).len()
            > 0 by {
            if k < done.len() {
                assert(codes_in(s)[k] == done[k]);
            }
        }
        assert forall|k: int, j: int|
            0 <= k < codes_in(s).len() && 0 <= j < codes_in(s)[k].len() implies !is_code_separator(
            #[trigger] codes_in(s)[k][j],
        ) by {
            if k < done.len() {
                assert(codes_in(s)[k] == done[k]);
                assert(done[k][j] == code_scan(s).0[k][j]);
            } else {
                assert(codes_in(s)[k] == cur);
                assert(cur[j] == code_scan(s).1[j]);
            }
        }
    } else {
        assert forall|k: int, j: int|
            0 <= k < codes_in(s).len() && 0 <= j < codes_in(s)[k].len() implies !is_code_separator(
            #[trigger] codes_in(s)[k][j],
        ) by {
            assert(codes_in(s)[k][j] == code_scan(s).0[k][j]);
        }
    }
}

/// A string option of a command, as Discord delivered it: its name, and
/// its value when the value is a string.
#[derive(Debug, Clone)]
pub struct CommandOption {
    pub name: String,
    pub text: Option<String>,
}

/// The value of the first string option called `name`.
pub open spec fn string_option(options: Seq<CommandOption>, name: Seq<char>) -> Option<Seq<char>>
    decreases options.len(),
{
    if options.len() == 0 {
        None
    } else if options[0].name@ == name && options[0].text is Some {
        Some(options[0].text->Some_0@)
    } else {
        string_option(options.drop_first(), name)
    }
}


/// Why a command failed, short of an outside service failing.
#[derive(Debug, Clone, PartialEq, Eq)]
pub enum CommandError {
    /// The command was used outside a guild.
    GuildOnly,
    /// A required string option is missing.
    MissingOption { name: String },
    /// `/watch` came without a subcommand.
    MissingSubcommand,
    /// `/watch` came with an option that is not a subcommand.
    UnexpectedOption,
    /// `/watch add` or `/watch remove` came without a code.
    NoCodes,
    /// `/watch` came with a subcommand the bot does not know.
    UnknownWatchAction { name: String },
    /// A command the bot does not know.
    UnknownCommand { name: String },
    /// A code is not an ISBN.
    Isbn(IsbnError),
    /// No metadata could be found for a book.
    Lookup(LookupError),
    /// The watchlist already holds `limit` books.
    WatchlistFull { limit: usize },
}

/// The text of a command error, as the user reads it after the cross mark.
pub open spec fn command_error_text(e: CommandError) -> Seq<char> {
    match e {
        CommandError::GuildOnly => "Command must be used within a guild"@,
        CommandError::MissingOption { name } => "Missing required option '"@ + name@ + "'"@,
        CommandError::MissingSubcommand => "Missing watch subcommand"@,
        CommandError::UnexpectedOption => "Unexpected option for watch command"@,
        CommandError::NoCodes => "At least one ISBN code is required"@,
        CommandError::UnknownWatchAction { name } => "Unknown watch action: "@ + name@,
        CommandError::UnknownCommand { name } => "Unknown command: "@ + name@,
        CommandError::Isbn(e) => isbn_error_text(e),
        CommandError::Lookup(e) => lookup_error_text(e),
        CommandError::WatchlistFull { limit } => "Your watchlist is full (up to "@ + decimal(
            limit as nat,
        ) + " ISBNs)."@,
    }
}

impl CommandError {
    /// The message shown to the user.
    pub fn message(&self) -> (m: String)
        ensures
            m@ == command_error_text(*self),
    {
        match self {
            CommandError::GuildOnly => String::from_str("Command must be used within a guild"),
            CommandError::MissingOption { name } => {
                let mut m = String::from_str("Missing required option '");
                m.append(name.as_str());
                m.append("'");
                m
            },
            CommandError::MissingSubcommand => String::from_str("Missing watch subcommand"),
            CommandError::UnexpectedOption => String::from_str("Unexpected option for watch command"),
            CommandError::NoCodes => String::from_str("At least one ISBN code is required"),
            CommandError::UnknownWatchAction { name } => {
                let mut m = String::from_str("Unknown watch action: ");
                m.append(name.as_str());
                m
            },
            CommandError::UnknownCommand { name } => {
                let mut m = String::from_str("Unknown command: ");
                m.append(name.as_str());
                m
            },
            CommandError::Isbn(e) => e.message(),
            CommandError::Lookup(e) => e.message(),
            CommandError::WatchlistFull { limit } => {
                let mut m = String::from_str("Your watchlist is full (up to ");
                push_decimal(&mut m, *limit as u64);
                m.append(" ISBNs).");
                m
            },
        }
    }
}

/// The reply to a failed command: a cross mark and the error.
pub fn failure_reply(message: &str) -> (r: String)
    ensures
        r@ == "❌ "@ + message@,
{
    let mut r = String::from_str("❌ ");
    r.append(message);
    r
}

/// The guild a command was used in; commands outside a guild are refused.
pub fn require_guild(guild_id: Option<u64>) -> (r: Result<u64, CommandError>)
    ensures
        r == (match guild_id {
            Some(g) => Ok::<u64, CommandError>(g),
            None => Err(CommandError::GuildOnly),
        }),
{
    match guild_id {
        Some(g) => Ok(g),
        None => Err(CommandError::GuildOnly),
    }
}

/// The value of the first string option called `name`; an error naming the
/// option when there is none.
pub fn require_string_option(options: &Vec<CommandOption>, name: &str) -> (r: Result<
    String,
    CommandError,
>)
    ensures
        match string_option(options@, name@) {
            Some(v) => r matches Ok(s) && s@ == v,
            None => r matches Err(CommandError::MissingOption { name: n }) && n@ == name@,
        },
{
    let mut i: usize = 0;
    assert(options@.skip(0) =~= options@);
    while i < options.len()
        invariant
            i <= options@.len(),
            string_option(options@, name@) == string_option(options@.skip(i as int), name@),
        decreases options.len() - i,
    {
        assert(options@.skip(i as int).drop_first() =~= options@.skip(i + 1));
        assert(options@.skip(i as int)[0] == options@[i as int]);
        let opt = &options[i];
        match &opt.text {
            Some(t) => {
                if str_eq(opt.name.as_str(), name) {
                    return Ok(String::from_str(t.as_str()));
                }
            },
            None => {},
        }
        i += 1;
    }
    assert(options@.skip(i as int).len() == 0);
    Err(CommandError::MissingOption { name: String::from_str(name) })
}

/// The commands the bot answers.
#[derive(Debug, Clone, Copy, PartialEq, Eq)]
pub enum CommandKind {
    Open,
    Watch,
}

/// Which command a slash command's name calls.
pub fn command_kind(name: &str) -> (r: Result<CommandKind, CommandError>)
    ensures
        name@ == "open"@ ==> r == Ok::<CommandKind, CommandError>(CommandKind::Open),
        name@ == "watch"@ ==> r == Ok::<CommandKind, CommandError>(CommandKind::Watch),
        name@ != "open"@ && name@ != "watch"@ ==> (r matches Err(
            CommandError::UnknownCommand { name: n },
        ) && n@ == name@),
{
    proof {
        reveal_strlit("open");
        reveal_strlit("watch");
        assert("open"@.len() != "watch"@.len());
    }
    if str_eq(name, "open") {
        Ok(CommandKind::Open)
    } else if str_eq(name, "watch") {
        Ok(CommandKind::Watch)
    } else {
        Err(CommandError::UnknownCommand { name: String::from_str(name) })
    }
}

/// The subcommands of `/watch`.
#[derive(Debug, Clone, Copy, PartialEq, Eq)]
pub enum WatchAction {
    Add,
    Remove,
    List,
}

/// Which `/watch` subcommand the call's first option names; `first` is that
/// option's name and whether it is a subcommand.
pub fn watch_action(first: Option<(&str, bool)>) -> (r: Result<WatchAction, CommandError>)
    ensures
        first is None ==> r == Err::<WatchAction, CommandError>(CommandError::MissingSubcommand),
        first matches Some((_, false)) ==> r == Err::<WatchAction, CommandError>(
            CommandError::UnexpectedOption,
        ),
        first is Some && first->Some_0.1 ==> {
                let name = first->Some_0.0;
                &&& name@ == "add"@ ==> r == Ok::<WatchAction, CommandError>(WatchAction::Add)
                &&& name@ == "remove"@ ==> r == Ok::<WatchAction, CommandError>(
                    WatchAction::Remove,
                )
                &&& name@ == "list"@ ==> r == Ok::<WatchAction, CommandError>(WatchAction::List)
                &&& name@ != "add"@ && name@ != "remove"@ && name@ != "list"@ ==> (r matches Err(
                    CommandError::UnknownWatchAction { name: n },
                ) && n@ == name@)
            },
{
    proof {
        reveal_strlit("add");
        reveal_strlit("remove");
        reveal_strlit("list");
        assert("add"@.len() == 3 && "remove"@.len() == 6 && "list"@.len() == 4);
    }
    match first {
        None => Err(CommandError::MissingSubcommand),
        Some((name, is_subcommand)) => {
            if !is_subcommand {
                Err(CommandError::UnexpectedOption)
            } else if str_eq(name, "add") {
                Ok(WatchAction::Add)
            } else if str_eq(name, "remove") {
                Ok(WatchAction::Remove)
            } else if str_eq(name, "list") {
                Ok(WatchAction::List)
            } else {
                Err(CommandError::UnknownWatchAction { name: String::from_str(name) })
            }
        },
    }
}

/// The codes of `/watch add` or `/watch remove`: the `codes` option split
/// into codes, of which there must be at least one.
pub fn watch_codes(options: &Vec<CommandOption>) -> (r: Result<Vec<String>, CommandError>)
    ensures
        match string_option(options@, "codes"@) {
            None => r matches Err(CommandError::MissingOption { name: n }) && n@ == "codes"@,
            Some(v) => if codes_in(v).len() == 0 {
                r == Err::<Vec<String>, CommandError>(CommandError::NoCodes)
            } else {
                r matches Ok(codes) && views_of(codes@) == codes_in(v)
            },
        },
{
    let raw = match require_string_option(options, "codes") {
        Ok(raw) => raw,
        Err(e) => {
            proof {
                reveal_strlit("codes");
            }
            return Err(e);
        },
    };
    let codes = parse_codes(raw.as_str());
    if codes.len() == 0 {
        return Err(CommandError::NoCodes);
    }
    Ok(codes)
}

/// A normalised ISBN as plain values: the ISBN-13 and the ISBN-10.
pub open spec fn normalized_view(n: NormalizedIsbn) -> (Seq<char>, Option<Seq<char>>) {
    (n.isbn_13@, n.isbn_10.deep_view())
}

/// Some book in `ts` has the ISBN-13 `isbn_13`.
pub open spec fn has_isbn13(ts: Seq<(Seq<char>, Option<Seq<char>>)>, isbn_13: Seq<char>) -> bool {
    exists|k: int| 0 <= k < ts.len() && (#[trigger] ts[k]).0 == isbn_13
}

/// Going through `codes` in order: the books to act on so far (each
/// ISBN-13 once, in first-seen order), and the error that stopped the
/// walk, if a code failed to normalise.
pub open spec fn target_scan(codes: Seq<Seq<char>>) -> (
    Seq<(Seq<char>, Option<Seq<char>>)>,
    Option<IsbnError>,
)
    decreases codes.len(),
{
    if codes.len() == 0 {
        (Seq::empty(), None)
    } else {
        let (ts, err) = target_scan(codes.drop_last());
        if err is Some {
            (ts, err)
        } else {
            match normalized(codes.last()) {
                Err(e) => (ts, Some(e)),
                Ok(n) => if has_isbn13(ts, n.0) {
                    (ts, None)
                } else {
                    (ts.push(n), None)
                },
            }
        }
    }
}

/// The books a `/watch add` or `/watch remove` call acts on, and the error
/// it ends with. The books come before the error: the caller handles them
/// in order, then fails.
#[derive(Debug, Clone)]
pub struct WatchTargets {
    pub targets: Vec<NormalizedIsbn>,
    pub error: Option<IsbnError>,
}

fn contains_isbn13(targets: &Vec<NormalizedIsbn>, isbn_13: &str) -> (b: bool)
    ensures
        b == has_isbn13(targets@.map_values(|n: NormalizedIsbn| normalized_view(n)), isbn_13@),
{
    let ghost ts = targets@.map_values(|n: NormalizedIsbn| normalized_view(n));
    let mut i: usize = 0;
    while i < targets.len()
        invariant
            i <= targets@.len(),
            ts == targets@.map_values(|n: NormalizedIsbn| normalized_view(n)),
            forall|k: int| 0 <= k < i ==> (#[trigger] ts[k]).0 != isbn_13@,
        decreases targets.len() - i,
    {
        if str_eq(targets[i].isbn_13.as_str(), isbn_13) {
            assert(ts[i as int].0 == isbn_13@);
            return true;
        }
        assert(ts[i as int].0 != isbn_13@);
        i += 1;
    }
    false
}

/// Normalises the codes of a `/watch` call in order, skipping a book
/// already seen and stopping at the first code that is not an ISBN.
pub fn watch_targets(codes: &Vec<String>) -> (r: WatchTargets)
    ensures
        r.targets@.map_values(|n: NormalizedIsbn| normalized_view(n)) == target_scan(
            views_of(codes@),
        ).0,
        r.error == target_scan(views_of(codes@)).1,
{
    let ghost cs = views_of(codes@);
    let mut targets: Vec<NormalizedIsbn> = Vec::new();
    let mut error: Option<IsbnError> = None;
    let mut i: usize = 0;
    assert(targets@.map_values(|n: NormalizedIsbn| normalized_view(n)) =~= Seq::empty());
    while i < codes.len()
        invariant
            i <= codes@.len(),
            cs == views_of(codes@),
            targets@.map_values(|n: NormalizedIsbn| normalized_view(n)) == target_scan(
                cs.take(i as int),
            ).0,
            error == target_scan(cs.take(i as int)).1,
        decreases codes.len() - i,
    {
        assert(cs.take(i + 1).drop_last() =~= cs.take(i as int));
        assert(cs.take(i + 1).last() == codes@[i as int]@);
        if error.is_none() {
            match normalize(codes[i].as_str()) {
                Err(e) => {
                    error = Some(e);
                },
                Ok(n) => {
                    if !contains_isbn13(&targets, n.isbn_13.as_str()) {
                        let ghost before = targets@;
                        targets.push(n);
                        assert(targets@.map_values(|n: NormalizedIsbn| normalized_view(n))
                            =~= before.map_values(|n: NormalizedIsbn| normalized_view(n)).push(
                            normalized_view(n),
                        ));
                    }
                },
            }
        }
        i += 1;
    }
    assert(cs.take(codes.len() as int) =~= cs);
    WatchTargets { targets, error }
}

/// The books `target_scan` keeps are valid ISBN-13s, each ISBN-13 at most once.
proof fn lemma_target_scan_distinct(codes: Seq<Seq<char>>)
    ensures
        forall|k: int|
            0 <= k < target_scan(codes).0.len() ==> valid_isbn13(
                (#[trigger] target_scan(codes).0[k]).0,
            ),
        forall|k: int, l: int|
            0 <= k < l < target_scan(codes).0.len() ==> (#[trigger] target_scan(codes).0[k]).0
                != (#[trigger] target_scan(codes).0[l]).0,
    decreases codes.len(),
{
    if codes.len() > 0 {
        lemma_target_scan_distinct(codes.drop_last());
        let (ts, err) = target_scan(codes.drop_last());
        if err is None {
            if let Ok(n) = normalized(codes.last()) {
                if !has_isbn13(ts, n.0) {
                    law_normalized_isbn13_is_valid(codes.last());
                    let now = ts.push(n);
                    assert(target_scan(codes).0 == now);
                    assert forall|k: int| 0 <= k < now.len() implies valid_isbn13(
                        (#[trigger] now[k]).0,
                    ) by {
                        if k < ts.len() {
                            assert(now[k] == target_scan(codes.drop_last()).0[k]);
                        }
                    }
                    assert forall|k: int, l: int| 0 <= k < l < now.len() implies (
                    #[trigger] now[k]).0 != (#[trigger] now[l]).0 by {
                        assert(now[k] == ts[k]);
                        if l < ts.len() {
                            assert(now[l] == ts[l]);
                            assert(ts[k] == target_scan(codes.drop_last()).0[k]);
                            assert(ts[l] == target_scan(codes.drop_last()).0[l]);
                        } else {
                            assert(now[l] == n);
                            if ts[k].0 == n.0 {
                                assert(has_isbn13(ts, n.0));
                            }
                        }
                    }
                }
            }
        }
    }
}

/// A `/watch add` or `/watch remove` call acts on each book at most once,
/// and only on valid ISBN-13s, however the codes repeat or are written.
pub proof fn law_watch_targets_distinct_and_valid(codes: Seq<Seq<char>>)
    ensures
        forall|k: int|
            0 <= k < target_scan(codes).0.len() ==> valid_isbn13(
                (#[trigger] target_scan(codes).0[k]).0,
            ),
        forall|k: int, l: int|
            0 <= k < l < target_scan(codes).0.len() ==> (#[trigger] target_scan(codes).0[k]).0
                != (#[trigger] target_scan(codes).0[l]).0,
{
    lemma_target_scan_distinct(codes);
}

/// A book as a line of a watchlist reply.
pub open spec fn entry_text(title: Seq<char>, subtitle: Option<Seq<char>>, isbn_13: Seq<char>) -> Seq<
    char,
> {
    "- `"@ + isbn_13 + "` **"@ + titled(title, subtitle) + "**"@
}

/// A book as a line of a watchlist reply: its ISBN-13 and its title.
pub fn format_entry(title: &str, subtitle: &Option<String>, isbn_13: &str) -> (e: String)
    ensures
        e@ == entry_text(title@, subtitle.deep_view(), isbn_13@),
{
    let mut e = String::from_str("- `");
    e.append(isbn_13);
    e.append("` **");
    let t = display_title(title, subtitle);
    e.append(t.as_str());
    e.append("**");
    e
}

/// The line of a stored book, or of its bare ISBN-13 when it is not stored.
pub fn book_entry(isbn_13: &str, book: &Option<DbIsbn>) -> (e: String)
    ensures
        e@ == (match book {
            Some(b) => entry_text(b.title@, b.subtitle.deep_view(), b.isbn_13@),
            None => entry_text(isbn_13@, None, isbn_13@),
        }),
{
    match book {
        Some(b) => format_entry(b.title.as_str(), &b.subtitle, b.isbn_13.as_str()),
        None => format_entry(isbn_13, &None, isbn_13),
    }
}

/// A reply that lists `entries` under `heading`, or says `when_empty`.
pub open spec fn listing(entries: Seq<Seq<char>>, heading: Seq<char>, when_empty: Seq<char>) -> Seq<
    char,
> {
    if entries.len() == 0 {
        when_empty
    } else {
        heading + "\n"@ + joined(entries, "\n"@)
    }
}

fn listing_reply(entries: &Vec<String>, heading: &str, when_empty: &str) -> (r: String)
    ensures
        r@ == listing(views_of(entries@), heading@, when_empty@),
{
    if entries.len() == 0 {
        return String::from_str(when_empty);
    }
    let mut r = String::from_str(heading);
    r.append("\n");
    let body = join_strings(entries, "\n");
    r.append(body.as_str());
    r
}

/// The reply to `/watch add`, given the lines of the books added.
pub fn watch_added_reply(entries: &Vec<String>) -> (r: String)
    ensures
        r@ == listing(
            views_of(entries@),
            "Added to your watchlist:"@,
            "No new ISBNs added to your watchlist."@,
        ),
{
    listing_reply(entries, "Added to your watchlist:", "No new ISBNs added to your watchlist.")
}

/// The reply to `/watch remove`, given the lines of the books removed.
pub fn watch_removed_reply(entries: &Vec<String>) -> (r: String)
    ensures
        r@ == listing(
            views_of(entries@),
            "Removed from your watchlist:"@,
            "No ISBNs removed from your watchlist."@,
        ),
{
    listing_reply(entries, "Removed from your watchlist:", "No ISBNs removed from your watchlist.")
}

/// The reply to `/watch list`, given the lines of the books watched.
pub fn watch_list_reply(entries: &Vec<String>) -> (r: String)
    ensures
        r@ == listing(views_of(entries@), "You are watching:"@, "Your watchlist is empty."@),
{
    listing_reply(entries, "You are watching:", "Your watchlist is empty.")
}

/// The reply to `/open`: the book and its two channels.
pub fn open_reply(metadata: &IsbnMetadata, text_channel: u64, voice_channel: u64) -> (r: String)
    ensures
        r@ == "Opened a reading session for **"@ + titled(
            metadata.title@,
            metadata.subtitle.deep_view(),
        ) + "**(`"@ + metadata.isbn_13@ + "`).\nText channel: <#"@ + decimal(text_channel as nat)
            + ">\nVoice channel: <#"@ + decimal(voice_channel as nat) + ">"@,
{
    let mut r = String::from_str("Opened a reading session for **");
    let t = metadata.display_title();
    r.append(t.as_str());
    r.append("**(`");
    r.append(metadata.isbn_13.as_str());
    r.append("`).\nText channel: <#");
    push_decimal(&mut r, text_channel);
    r.append(">\nVoice channel: <#");
    push_decimal(&mut r, voice_channel);
    r.append(">");
    r
}

/// `s` begins with `p`.
pub open spec fn starts_with(s: Seq<char>, p: Seq<char>) -> bool {
    p.len() <= s.len() && s.take(p.len() as int) == p
}

/// Index of the first `c` in `s`, or -1.
pub open spec fn index_of_char(s: Seq<char>, c: char) -> int
    decreases s.len(),
{
    if s.len() == 0 {
        -1
    } else if s[0] == c {
        0
    } else {
        let r = index_of_char(s.drop_first(), c);
        if r < 0 {
            -1
        } else {
            r + 1
        }
    }
}

/// The ISBN-13 of a "watch" button's custom id.
pub open spec fn watch_add_target(id: Seq<char>) -> Option<Seq<char>> {
    let p = WATCH_ACTION_PREFIX@ + "add:"@;
    if starts_with(id, p) {
        Some(id.skip(p.len() as int))
    } else {
        None
    }
}

/// The guild and ISBN-13 of a "leave the watchlist" button's custom id.
pub open spec fn watch_remove_target(id: Seq<char>) -> Option<(nat, Seq<char>)> {
    let p = WATCH_ACTION_PREFIX@ + "remove:"@;
    if starts_with(id, p) {
        let rest = id.skip(p.len() as int);
        let c = index_of_char(rest, ':');
        if c >= 0 {
            match parse_unsigned(rest.take(c), u64::MAX as nat) {
                Ok(g) => Some((g, rest.skip(c + 1))),
                Err(_) => None,
            }
        } else {
            None
        }
    } else {
        None
    }
}

/// The channel of an "Extend" button's custom id.
pub open spec fn extend_target(id: Seq<char>) -> Option<nat> {
    let p = EXTEND_ACTION_PREFIX@;
    if starts_with(id, p) {
        match parse_unsigned(id.skip(p.len() as int), u64::MAX as nat) {
            Ok(c) => Some(c),
            Err(_) => None,
        }
    } else {
        None
    }
}

/// What a button of the bot asks for.
#[derive(Debug, Clone, PartialEq, Eq)]
pub enum ComponentAction {
    /// Add a book to the clicking user's watchlist.
    WatchAdd { isbn_13: String },
    /// Remove a book from the clicking user's watchlist in a guild.
    WatchRemove { guild_id: u64, isbn_13: String },
    /// Extend an archived channel.
    Extend { channel_id: u64 },
}

pub(crate) fn starts_with_str(s: &Vec<char>, p: &str) -> (b: bool)
    ensures
        b == starts_with(s@, p@),
{
    let pc = chars_of(p);
    if pc.len() > s.len() {
        return false;
    }
    let mut i: usize = 0;
    while i < pc.len()
        invariant
            i <= pc@.len() <= s@.len(),
            pc@ == p@,
            forall|j: int| 0 <= j < i ==> s@[j] == pc@[j],
        decreases pc.len() - i,
    {
        if s[i] != pc[i] {
            assert(s@.take(p@.len() as int)[i as int] != p@[i as int]);
            return false;
        }
        i += 1;
    }
    assert(s@.take(p@.len() as int) =~= p@);
    true
}

fn colon_index(s: &Vec<char>, from: usize) -> (r: Option<usize>)
    requires
        from <= s@.len(),
    ensures
        match r {
            Some(i) => from <= i < s@.len() && index_of_char(s@.skip(from as int), ':') == i - from,
            None => index_of_char(s@.skip(from as int), ':') < 0,
        },
{
    let mut i: usize = s.len();
    let mut found: Option<usize> = None;
    // Scan from the end so that the invariant can speak of suffixes.
    while i > from
        invariant
            from <= i <= s@.len(),
            match found {
                Some(f) => i <= f < s@.len() && index_of_char(s@.skip(i as int), ':') == f - i,
                None => index_of_char(s@.skip(i as int), ':') < 0,
            },
        decreases i - from,
    {
        i -= 1;
        assert(s@.skip(i as int).drop_first() =~= s@.skip(i + 1));
        if s[i] == ':' {
            found = Some(i);
        }
    }
    found
}

/// Reads the custom id of one of the bot's buttons.
pub fn parse_component_id(custom_id: &str) -> (r: Option<ComponentAction>)
    ensures
        match r {
            Some(ComponentAction::WatchAdd { isbn_13 }) => watch_add_target(custom_id@) == Some(
                isbn_13@,
            ),
            Some(ComponentAction::WatchRemove { guild_id, isbn_13 }) => watch_add_target(
                custom_id@,
            ) is None && watch_remove_target(custom_id@) == Some((guild_id as nat, isbn_13@)),
            Some(ComponentAction::Extend { channel_id }) => watch_add_target(custom_id@) is None
                && watch_remove_target(custom_id@) is None && extend_target(custom_id@) == Some(
                channel_id as nat,
            ),
            None => watch_add_target(custom_id@) is None && watch_remove_target(custom_id@) is None
                && extend_target(custom_id@) is None,
        },
{
    let chars = chars_of(custom_id);
    let mut add = String::from_str(WATCH_ACTION_PREFIX);
    add.append("add:");
    if starts_with_str(&chars, add.as_str()) {
        let mut isbn_13 = String::new();
        push_chars(&mut isbn_13, chars.as_slice(), add.as_str().unicode_len(), chars.len());
        assert(chars@.subrange(add@.len() as int, chars@.len() as int) =~= chars@.skip(
            add@.len() as int,
        ));
        return Some(ComponentAction::WatchAdd { isbn_13 });
    }
    let mut remove = String::from_str(WATCH_ACTION_PREFIX);
    remove.append("remove:");
    if starts_with_str(&chars, remove.as_str()) {
        let start: usize = remove.as_str().unicode_len();
        let ghost rest = chars@.skip(start as int);
        match colon_index(&chars, start) {
            Some(c) => {
                assert(c < chars@.len());
                let mut digits = String::new();
                push_chars(&mut digits, chars.as_slice(), start, c);
                assert(chars@.subrange(start as int, c as int) =~= rest.take(c - start));
                match parse_unsigned_str(digits.as_str(), u64::MAX) {
                    Ok(guild_id) => {
                        let mut isbn_13 = String::new();
                        push_chars(&mut isbn_13, chars.as_slice(), c + 1, chars.len());
                        assert(chars@.subrange(c + 1, chars@.len() as int) =~= rest.skip(
                            c - start + 1,
                        ));
                        return Some(ComponentAction::WatchRemove { guild_id, isbn_13 });
                    },
                    Err(_) => {},
                }
            },
            None => {},
        }
        proof {
            reveal_strlit("remove:");
            reveal_strlit("extend:");
            reveal_strlit("watch:");
            assert(chars@.take(remove@.len() as int) == remove@);
            assert(remove@[0] == WATCH_ACTION_PREFIX@[0]);
            assert(chars@[0] == chars@.take(remove@.len() as int)[0]);
            assert(chars@[0] == 'w');
            assert(EXTEND_ACTION_PREFIX@[0] == 'e');
            assert(!starts_with(chars@, EXTEND_ACTION_PREFIX@)) by {
                if starts_with(chars@, EXTEND_ACTION_PREFIX@) {
                    assert(chars@.take(EXTEND_ACTION_PREFIX@.len() as int)[0] == chars@[0]);
                }
            }
        }
        return None;
    }
    let start: usize = EXTEND_ACTION_PREFIX.unicode_len();
    if starts_with_str(&chars, EXTEND_ACTION_PREFIX) {
        let mut digits = String::new();
        push_chars(&mut digits, chars.as_slice(), start, chars.len());
        assert(chars@.subrange(start as int, chars@.len() as int) =~= chars@.skip(start as int));
        match parse_unsigned_str(digits.as_str(), u64::MAX) {
            Ok(channel_id) => {
                return Some(ComponentAction::Extend { channel_id });
            },
            Err(_) => {
                return None;
            },
        }
    }
    None
}

proof fn lemma_index_of_separator(a: Seq<char>, b: Seq<char>)
    requires
        all_digits(a),
    ensures
        index_of_char(a + seq![':'] + b, ':') == a.len(),
    decreases a.len(),
{
    let s = a + seq![':'] + b;
    if a.len() == 0 {
        assert(s[0] == ':');
    } else {
        assert(is_ascii_digit(a[0]));
        assert(s[0] == a[0]);
        assert(a.drop_first() + seq![':'] + b =~= s.drop_first());
        assert forall|i: int| 0 <= i < a.drop_first().len() implies is_ascii_digit(
            #[trigger] a.drop_first()[i],
        ) by {
            assert(a.drop_first()[i] == a[i + 1]);
        }
        lemma_index_of_separator(a.drop_first(), b);
    }
}

/// A "watch" button's custom id reads back as the book it was made for.
pub proof fn law_watch_add_id_round_trip(isbn_13: Seq<char>)
    ensures
        watch_add_target(WATCH_ACTION_PREFIX@ + "add:"@ + isbn_13) == Some(isbn_13),
{
    let p = WATCH_ACTION_PREFIX@ + "add:"@;
    assert((p + isbn_13).take(p.len() as int) =~= p);
    assert((p + isbn_13).skip(p.len() as int) =~= isbn_13);
}

/// A "leave the watchlist" button's custom id reads back as the guild and
/// book it was made for, and as nothing else.
pub proof fn law_watch_remove_id_round_trip(guild_id: u64, isbn_13: Seq<char>)
    ensures
        watch_add_target(
            WATCH_ACTION_PREFIX@ + "remove:"@ + decimal(guild_id as nat) + ":"@ + isbn_13,
        ) is None,
        watch_remove_target(
            WATCH_ACTION_PREFIX@ + "remove:"@ + decimal(guild_id as nat) + ":"@ + isbn_13,
        ) == Some((guild_id as nat, isbn_13)),
{
    reveal_strlit("watch:");
    reveal_strlit("add:");
    reveal_strlit("remove:");
    reveal_strlit(":");
    let p = WATCH_ACTION_PREFIX@ + "remove:"@;
    let d = decimal(guild_id as nat);
    let id = p + d + ":"@ + isbn_13;
    let add = WATCH_ACTION_PREFIX@ + "add:"@;
    assert(id[6] == 'r');
    assert(add[6] == 'a');
    if starts_with(id, add) {
        assert(id.take(add.len() as int)[6] == id[6]);
    }
    assert(id =~= p + (d + seq![':'] + isbn_13));
    assert(id.take(p.len() as int) =~= p);
    let rest = id.skip(p.len() as int);
    assert(rest =~= d + seq![':'] + isbn_13);
    lemma_decimal_digits(guild_id as nat);
    lemma_index_of_separator(d, isbn_13);
    assert(rest.take(d.len() as int) =~= d);
    assert(rest.skip(d.len() as int + 1) =~= isbn_13);
    law_parse_reads_decimal(guild_id as nat, u64::MAX as nat);
}

/// An "Extend" button's custom id reads back as the channel it was made
/// for, and as nothing else.
pub proof fn law_extend_id_round_trip(channel_id: u64)
    ensures
        watch_add_target(EXTEND_ACTION_PREFIX@ + decimal(channel_id as nat)) is None,
        watch_remove_target(EXTEND_ACTION_PREFIX@ + decimal(channel_id as nat)) is None,
        extend_target(EXTEND_ACTION_PREFIX@ + decimal(channel_id as nat)) == Some(
            channel_id as nat,
        ),
{
    reveal_strlit("watch:");
    reveal_strlit("extend:");
    let p = EXTEND_ACTION_PREFIX@;
    let id = p + decimal(channel_id as nat);
    assert(id[0] == 'e');
    let add = WATCH_ACTION_PREFIX@ + "add:"@;
    let remove = WATCH_ACTION_PREFIX@ + "remove:"@;
    assert(add[0] == 'w' && remove[0] == 'w');
    if starts_with(id, add) {
        assert(id.take(add.len() as int)[0] == id[0]);
    }
    if starts_with(id, remove) {
        assert(id.take(remove.len() as int)[0] == id[0]);
    }
    assert(id.take(p.len() as int) =~= p);
    assert(id.skip(p.len() as int) =~= decimal(channel_id as nat));
    law_parse_reads_decimal(channel_id as nat, u64::MAX as nat);
}

/// A watchlist holding `watched` takes `isbn_13`: it is already on it, or
/// fewer than `limit` books are.
pub open spec fn admits(watched: Seq<Seq<char>>, isbn_13: Seq<char>, limit: nat) -> bool {
    watched.contains(isbn_13) || watched.len() < limit
}

/// The watchlist after `isbn_13` is added.
pub open spec fn with_watch(watched: Seq<Seq<char>>, isbn_13: Seq<char>) -> Seq<Seq<char>> {
    if watched.contains(isbn_13) {
        watched
    } else {
        watched.push(isbn_13)
    }
}

/// Whether `/watch add` may add `isbn_13` to a watchlist holding `watched`.
pub fn admit_watch(watched: &Vec<String>, isbn_13: &str, limit: usize) -> (r: Result<(), CommandError>)
    ensures
        r is Ok <==> admits(views_of(watched@), isbn_13@, limit as nat),
        r matches Err(e) ==> (e == CommandError::WatchlistFull { limit }),
{
    if holds_code(watched, isbn_13) || watched.len() < limit {
        Ok(())
    } else {
        Err(CommandError::WatchlistFull { limit })
    }
}

/// Whether `watched` holds `isbn_13`.
fn holds_code(watched: &Vec<String>, isbn_13: &str) -> (b: bool)
    ensures
        b == views_of(watched@).contains(isbn_13@),
{
    let ghost ws = views_of(watched@);
    let mut i: usize = 0;
    while i < watched.len()
        invariant
            i <= watched@.len(),
            ws == views_of(watched@),
            forall|j: int| 0 <= j < i ==> ws[j] != isbn_13@,
        decreases watched.len() - i,
    {
        if str_eq(watched[i].as_str(), isbn_13) {
            assert(ws[i as int] == isbn_13@);
            return true;
        }
        i += 1;
    }
    false
}

/// One code of `/watch add`: admitted codes join the watchlist `watched`
/// (once), and a full watchlist refuses a new one and stays as it was.
pub fn admit_and_add(watched: &mut Vec<String>, isbn_13: &str, limit: usize) -> (r: Result<(), CommandError>)
    ensures
        r is Ok <==> admits(views_of(old(watched)@), isbn_13@, limit as nat),
        r is Ok ==> views_of(final(watched)@) == with_watch(views_of(old(watched)@), isbn_13@),
        r matches Err(e) ==> (e == CommandError::WatchlistFull { limit }),
        r is Err ==> final(watched)@ == old(watched)@,
{
    if holds_code(watched, isbn_13) {
        return Ok(());
    }
    if watched.len() < limit {
        let ghost before = watched@;
        watched.push(String::from_str(isbn_13));
        assert(views_of(watched@) =~= views_of(before).push(isbn_13@));
        Ok(())
    } else {
        Err(CommandError::WatchlistFull { limit })
    }
}

/// `/watch add` never takes a watchlist past its limit: a list within the
/// limit stays within it after any admitted addition.
pub proof fn law_watchlist_within_limit(watched: Seq<Seq<char>>, isbn_13: Seq<char>, limit: nat)
    requires
        watched.len() <= limit,
        admits(watched, isbn_13, limit),
    ensures
        with_watch(watched, isbn_13).len() <= limit,
{
}

} // verus!
