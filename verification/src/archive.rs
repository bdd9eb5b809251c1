//! Channel budgets and the archive: which text channels overflow into the
//! archive category, and what happens to an archived channel on each pass
//! (expiry, deletion warning, deletion, topic refresh, extension).
//!
//! Instants are Unix microseconds; spans are whole seconds.

use vstd::prelude::*;
use crate::clock::{
    fits_after,
    add_seconds, delta_seconds_ok, format_instant, now_micros, read_clock, representable, ClockReading, Zone,
    span_micros, sub_seconds, zoned_timestamp_text, LATEST_MICROS, EARLIEST_MICROS,
};
use crate::isbn::{display_title, titled};
use crate::store::DbIsbn;
use crate::util::{
    channel_url, channel_url_text, extend_custom_id, str_eq, ButtonSpec, ButtonTone, SessionDm,
    EXTEND_ACTION_PREFIX,
};
use crate::routes::{starts_with, starts_with_str};
use crate::text::{chars_of, decimal, push_decimal};

verus! {

/// Channels that an operation is about to create.
#[derive(Debug, Clone, Copy, PartialEq, Eq)]
pub struct BudgetReservation {
    pub new_text_channels: usize,
    pub new_categories: usize,
}

/// Which cap a new channel would break.
#[derive(Debug, Clone, Copy, PartialEq, Eq)]
pub enum BudgetError {
    /// All channels of the server, with the new ones, exceed the cap.
    ServerChannelCap(usize),
    /// Text channels, with the new ones, exceed the text budget.
    TextChannelBudget(usize),
    /// A new category alone would exceed the cap.
    CategoryCap(usize),
}

impl BudgetError {
    /// The message shown to the user.
    pub fn message(&self) -> (m: String)
        ensures
            m@ == budget_error_text(*self),
    {
        let mut m: String;
        match self {
            BudgetError::ServerChannelCap(n) => {
                m = String::from_str("Creating this channel would exceed the server channel cap (");
                crate::text::push_decimal(&mut m, *n as u64);
                m.append(").");
            },
            BudgetError::TextChannelBudget(n) => {
                m = String::from_str("Creating this channel would exceed the text channel budget (");
                crate::text::push_decimal(&mut m, *n as u64);
                m.append(").");
            },
            BudgetError::CategoryCap(n) => {
                m = String::from_str(
                    "Creating an additional category would exceed the server channel cap (",
                );
                crate::text::push_decimal(&mut m, *n as u64);
                m.append(").");
            },
        }
        m
    }
}

/// The message of a budget error.
pub open spec fn budget_error_text(e: BudgetError) -> Seq<char> {
    match e {
        BudgetError::ServerChannelCap(n) => "Creating this channel would exceed the server channel cap ("@
            + decimal(n as nat) + ")."@,
        BudgetError::TextChannelBudget(n) => "Creating this channel would exceed the text channel budget ("@
            + decimal(n as nat) + ")."@,
        BudgetError::CategoryCap(n) => "Creating an additional category would exceed the server channel cap ("@
            + decimal(n as nat) + ")."@,
    }
}

/// The outcome of the budget check, in the order the caps are checked.
pub open spec fn budget_outcome(
    channel_count: nat,
    text_channel_count: nat,
    reservation: BudgetReservation,
    max_server_channels: usize,
    text_channel_budget: usize,
) -> Result<(), BudgetError> {
    if channel_count + reservation.new_categories + reservation.new_text_channels
        > max_server_channels {
        Err(BudgetError::ServerChannelCap(max_server_channels))
    } else if text_channel_count + reservation.new_text_channels > text_channel_budget {
        Err(BudgetError::TextChannelBudget(text_channel_budget))
    } else if reservation.new_categories > 0 && channel_count + reservation.new_categories
        > max_server_channels {
        Err(BudgetError::CategoryCap(max_server_channels))
    } else {
        Ok(())
    }
}

/// Checks that the reserved channels fit: all channels of the server within
/// `max_server_channels`, text channels within `text_channel_budget`.
pub fn enforce_channel_budgets(
    channel_count: usize,
    text_channel_count: usize,
    reservation: BudgetReservation,
    max_server_channels: usize,
    text_channel_budget: usize,
) -> (r: Result<(), BudgetError>)
    requires
        channel_count + reservation.new_categories + reservation.new_text_channels <= usize::MAX,
        text_channel_count + reservation.new_text_channels <= usize::MAX,
    ensures
        r == budget_outcome(
            channel_count as nat,
            text_channel_count as nat,
            reservation,
            max_server_channels,
            text_channel_budget,
        ),
{
    let projected_total = channel_count + reservation.new_categories + reservation.new_text_channels;
    if projected_total > max_server_channels {
        return Err(BudgetError::ServerChannelCap(max_server_channels));
    }
    let text_channels = text_channel_count + reservation.new_text_channels;
    if text_channels > text_channel_budget {
        return Err(BudgetError::TextChannelBudget(text_channel_budget));
    }
    if reservation.new_categories > 0 && channel_count + reservation.new_categories
        > max_server_channels {
        return Err(BudgetError::CategoryCap(max_server_channels));
    }
    Ok(())
}

/// A channel accepted by the budget check leaves the server and its text
/// channels within their caps.
pub proof fn law_budget_respected(
    channel_count: nat,
    text_channel_count: nat,
    reservation: BudgetReservation,
    max_server_channels: usize,
    text_channel_budget: usize,
)
    ensures
        budget_outcome(
            channel_count,
            text_channel_count,
            reservation,
            max_server_channels,
            text_channel_budget,
        ) is Ok <==> (channel_count + reservation.new_categories + reservation.new_text_channels
            <= max_server_channels && text_channel_count + reservation.new_text_channels
            <= text_channel_budget),
{
}

/// What the archive pass needs to know of a guild channel.
#[derive(Debug, Clone, PartialEq, Eq)]
pub struct ChannelInfo {
    pub id: u64,
    pub is_text: bool,
    pub parent_id: Option<u64>,
    pub position: u64,
    /// When its latest message was posted (Unix microseconds), if it has one.
    pub last_activity: Option<i64>,
}

/// How long ago, in rank, a channel was last active: smaller is more
/// recent; a channel without messages ranks last.
pub open spec fn staleness(last_activity: Option<i64>) -> u64 {
    match last_activity {
        Some(t) => (i64::MAX - t) as u64,
        None => u64::MAX,
    }
}

/// A message was posted in the channel within `lookback` seconds before `now`.
pub open spec fn recently_active(last_activity: Option<i64>, now: i64, lookback: u64) -> bool {
    match last_activity {
        Some(t) => now - t <= span_micros(lookback),
        None => false,
    }
}

/// The order candidates are kept in: most recently active first, then by
/// position, then by id.
pub open spec fn key_le(a: (u64, u64, u64, bool), b: (u64, u64, u64, bool)) -> bool {
    a.0 < b.0 || (a.0 == b.0 && (a.1 < b.1 || (a.1 == b.1 && (a.2 < b.2 || (a.2 == b.2 && (
    !a.3 || b.3))))))
}

/// Where an insertion sort puts `x` among the sorted `s`: after the entries not above it.
pub open spec fn key_insert_pos(s: Seq<(u64, u64, u64, bool)>, x: (u64, u64, u64, bool)) -> nat
    decreases s.len(),
{
    if s.len() == 0 || !key_le(s[0], x) {
        0
    } else {
        1 + key_insert_pos(s.drop_first(), x)
    }
}

/// `s` sorted by `key_le` (a stable insertion sort).
pub open spec fn sorted_keys(s: Seq<(u64, u64, u64, bool)>) -> Seq<(u64, u64, u64, bool)>
    decreases s.len(),
{
    if s.len() == 0 {
        s
    } else {
        let t = sorted_keys(s.drop_last());
        let p = key_insert_pos(t, s.last()) as int;
        t.take(p) + seq![s.last()] + t.skip(p)
    }
}

/// `x` occurs in `s`.
pub open spec fn contains_u64(s: Seq<u64>, x: u64) -> bool {
    exists|i: int| 0 <= i < s.len() && s[i] == x
}

/// The text channels that sit in a pool category, as (staleness, position,
/// id, recently active).
pub open spec fn pool_text_channels(
    channels: Seq<ChannelInfo>,
    pool: Seq<u64>,
    now: i64,
    lookback: u64,
) -> Seq<(u64, u64, u64, bool)>
    decreases channels.len(),
{
    if channels.len() == 0 {
        Seq::empty()
    } else {
        let c = channels.last();
        let rest = pool_text_channels(channels.drop_last(), pool, now, lookback);
        if c.is_text && (c.parent_id matches Some(p) && contains_u64(pool, p)) {
            rest.push(
                (
                    staleness(c.last_activity),
                    c.position,
                    c.id,
                    recently_active(c.last_activity, now, lookback),
                ),
            )
        } else {
            rest
        }
    }
}

/// The ids of the entries of `s` that were not recently active, in order.
pub open spec fn stale_ids(s: Seq<(u64, u64, u64, bool)>) -> Seq<u64>
    decreases s.len(),
{
    if s.len() == 0 {
        Seq::empty()
    } else if s.last().3 {
        stale_ids(s.drop_last())
    } else {
        stale_ids(s.drop_last()).push(s.last().2)
    }
}

/// The channels to archive: the pool's text channels past the first
/// `capacity` when the most recently active come first, except those with a
/// message within `lookback` seconds.
pub open spec fn overflow_ids(
    channels: Seq<ChannelInfo>,
    pool: Seq<u64>,
    capacity: nat,
    now: i64,
    lookback: u64,
) -> Seq<u64> {
    let sorted = sorted_keys(pool_text_channels(channels, pool, now, lookback));
    let k: int = if capacity <= sorted.len() {
        capacity as int
    } else {
        sorted.len() as int
    };
    stale_ids(sorted.skip(k))
}

fn contains_id(s: &Vec<u64>, x: u64) -> (r: bool)
    ensures
        r == contains_u64(s@, x),
{
    let mut i: usize = 0;
    while i < s.len()
        invariant
            i <= s@.len(),
            forall|j: int| 0 <= j < i ==> s@[j] != x,
        decreases s.len() - i,
    {
        if s[i] == x {
            return true;
        }
        i += 1;
    }
    false
}

fn key_le_exec(a: &(u64, u64, u64, bool), b: &(u64, u64, u64, bool)) -> (r: bool)
    ensures
        r == key_le(*a, *b),
{
    a.0 < b.0 || (a.0 == b.0 && (a.1 < b.1 || (a.1 == b.1 && (a.2 < b.2 || (a.2 == b.2 && (!a.3
        || b.3))))))
}

fn sort_keys(v: &Vec<(u64, u64, u64, bool)>) -> (r: Vec<(u64, u64, u64, bool)>)
    ensures
        r@ == sorted_keys(v@),
{
    let mut sorted: Vec<(u64, u64, u64, bool)> = Vec::new();
    let mut i: usize = 0;
    while i < v.len()
        invariant
            i <= v@.len(),
            sorted@ == sorted_keys(v@.take(i as int)),
        decreases v.len() - i,
    {
        let x = v[i];
        let mut p: usize = 0;
        assert(sorted@.skip(0) =~= sorted@);
        while p < sorted.len() && key_le_exec(&sorted[p], &x)
            invariant
                p <= sorted@.len(),
                key_insert_pos(sorted@, x) == p + key_insert_pos(sorted@.skip(p as int), x),
            decreases sorted.len() - p,
        {
            assert(sorted@.skip(p as int).drop_first() =~= sorted@.skip(p + 1));
            p += 1;
        }
        proof {
            if p == sorted@.len() {
                assert(sorted@.skip(p as int) =~= Seq::<(u64, u64, u64, bool)>::empty());
            }
            assert(v@.take(i + 1).drop_last() =~= v@.take(i as int));
            assert(sorted@.insert(p as int, x) =~= sorted@.take(p as int) + seq![x] + sorted@.skip(
                p as int,
            ));
        }
        sorted.insert(p, x);
        i += 1;
    }
    assert(v@.take(v@.len() as int) =~= v@);
    sorted
}

fn staleness_of(last_activity: Option<i64>) -> (k: u64)
    ensures
        k == staleness(last_activity),
{
    match last_activity {
        Some(t) => ((i64::MAX as i128) - (t as i128)) as u64,
        None => u64::MAX,
    }
}

fn recently_active_exec(last_activity: Option<i64>, now: i64, lookback: u64) -> (b: bool)
    ensures
        b == recently_active(last_activity, now, lookback),
{
    match last_activity {
        Some(t) => (now as i128) - (t as i128) <= (lookback as i128) * 1_000_000,
        None => false,
    }
}

/// How many text channels a category of the pool holds.
pub const TEXT_CATEGORY_CHANNEL_CAP: usize = 50;

/// A category of the guild: its position, and the number of text channels
/// in it.
#[derive(Debug, Clone, PartialEq, Eq)]
pub struct CategoryInfo {
    pub id: u64,
    pub name: String,
    pub position: u64,
    pub text_channels: usize,
}

/// What the pool of text categories needs before channels are placed.
#[derive(Debug, Clone, PartialEq, Eq)]
pub enum PoolStep {
    /// The pool has room: its category ids (the configured text category
    /// among them), and the topmost category with room, where new text
    /// channels go.
    Ready { pool: Vec<u64>, active: u64 },
    /// Every category of the pool is full, or there is none: create this one.
    Create { name: String, position: u16 },
}

/// The categories of the pool: those named with the prefix, in the given order.
pub open spec fn pool_categories(cats: Seq<CategoryInfo>, prefix: Seq<char>) -> Seq<CategoryInfo>
    decreases cats.len(),
{
    if cats.len() == 0 {
        seq![]
    } else {
        let rest = pool_categories(cats.drop_last(), prefix);
        if starts_with(cats.last().name@, prefix) {
            rest.push(cats.last())
        } else {
            rest
        }
    }
}

/// `(position, id)` of `a` comes before that of `b`.
pub open spec fn placed_before(a: (u64, u64), b: (u64, u64)) -> bool {
    a.0 < b.0 || (a.0 == b.0 && a.1 <= b.1)
}

/// `(position, id)` of the topmost category of `pool` with room, if any.
pub open spec fn topmost_with_room(pool: Seq<CategoryInfo>) -> Option<(u64, u64)>
    decreases pool.len(),
{
    if pool.len() == 0 {
        None
    } else {
        let rest = topmost_with_room(pool.drop_last());
        let c = pool.last();
        if c.text_channels >= TEXT_CATEGORY_CHANNEL_CAP {
            rest
        } else {
            match rest {
                Some(r) => if placed_before(r, (c.position, c.id)) {
                    Some(r)
                } else {
                    Some((c.position, c.id))
                },
                None => Some((c.position, c.id)),
            }
        }
    }
}

/// The ids of the pool, and the configured text category if not among them.
pub open spec fn pool_ids(pool: Seq<CategoryInfo>, configured: Option<u64>) -> Seq<u64> {
    let ids = pool.map_values(|c: CategoryInfo| c.id);
    match configured {
        Some(c) => if ids.contains(c) {
            ids
        } else {
            ids.push(c)
        },
        None => ids,
    }
}

/// `position_base + n`, held to what a channel position can be.
pub open spec fn pool_position(position_base: int, n: nat) -> int {
    let p = position_base + n;
    if p < 0 {
        0
    } else if p > u16::MAX {
        u16::MAX as int
    } else {
        p
    }
}

/// The step `text_category_pool` gives.
pub open spec fn pool_step_matches(
    s: PoolStep,
    categories: Seq<CategoryInfo>,
    prefix: Seq<char>,
    position_base: int,
    configured: Option<u64>,
) -> bool {
    let pool = pool_categories(categories, prefix);
    match topmost_with_room(pool) {
        Some(t) => s matches PoolStep::Ready { pool: ids, active } && ids@ == pool_ids(pool, configured)
            && active == t.1,
        None => s matches PoolStep::Create { name, position } && name@ == prefix + "-"@ + decimal(
            pool.len() + 1,
        ) && position == pool_position(position_base, pool.len()),
    }
}

/// New text channels go to a category of the pool with room, and one placed
/// no lower than any other with room; a new category is created only when
/// every category of the pool holds its fifty text channels.
pub proof fn law_pool_places_within_cap(pool: Seq<CategoryInfo>)
    ensures
        topmost_with_room(pool) matches Some(t) ==> exists|i: int|
            0 <= i < pool.len() && #[trigger] pool[i].id == t.1 && pool[i].position == t.0
                && pool[i].text_channels < TEXT_CATEGORY_CHANNEL_CAP,
        topmost_with_room(pool) matches Some(t) ==> forall|j: int|
            0 <= j < pool.len() && #[trigger] pool[j].text_channels < TEXT_CATEGORY_CHANNEL_CAP
                ==> placed_before(t, (pool[j].position, pool[j].id)),
        topmost_with_room(pool) is None ==> forall|j: int|
            0 <= j < pool.len() ==> #[trigger] pool[j].text_channels >= TEXT_CATEGORY_CHANNEL_CAP,
    decreases pool.len(),
{
    if pool.len() > 0 {
        let rest = pool.drop_last();
        law_pool_places_within_cap(rest);
        assert forall|j: int| 0 <= j < rest.len() implies #[trigger] rest[j] == pool[j] by {}
        let last = pool.len() - 1;
        assert(pool[last] == pool.last());
        if let Some(t) = topmost_with_room(pool) {
            if let Some(r) = topmost_with_room(rest) {
                let i = choose|i: int|
                    0 <= i < rest.len() && #[trigger] rest[i].id == r.1 && rest[i].position == r.0
                        && rest[i].text_channels < TEXT_CATEGORY_CHANNEL_CAP;
                assert(rest[i] == pool[i]);
            }
            assert forall|j: int|
                0 <= j < pool.len() && #[trigger] pool[j].text_channels
                    < TEXT_CATEGORY_CHANNEL_CAP implies placed_before(t, (pool[j].position, pool[j].id)) by {
                if j < last {
                    assert(rest[j] == pool[j]);
                    assert(rest[j].text_channels < TEXT_CATEGORY_CHANNEL_CAP);
                }
            }
        } else {
            assert forall|j: int| 0 <= j < pool.len() implies #[trigger] pool[j].text_channels
                >= TEXT_CATEGORY_CHANNEL_CAP by {
                if j < last {
                    assert(rest[j] == pool[j]);
                    assert(rest[j].text_channels >= TEXT_CATEGORY_CHANNEL_CAP);
                }
            }
        }
    }
}

/// The pool of text categories (named with `prefix`), each holding at most
/// `TEXT_CATEGORY_CHANNEL_CAP` text channels: when none has room, the next
/// one, `{prefix}-{n}` for the pool's `n`-th, is created at `position_base`
/// plus the pool's size; else the pool and its topmost category with room.
pub fn text_category_pool(
    categories: &Vec<CategoryInfo>,
    prefix: &str,
    position_base: i64,
    configured: Option<u64>,
) -> (s: PoolStep)
    requires
        categories@.len() < u64::MAX,
    ensures
        pool_step_matches(s, categories@, prefix@, position_base as int, configured),
{
    let ghost cats = categories@;
    let mut ids: Vec<u64> = Vec::new();
    let mut best: Option<(u64, u64)> = None;
    let mut i: usize = 0;
    while i < categories.len()
        invariant
            i <= cats.len() < u64::MAX,
            cats == categories@,
            ids@ == pool_categories(cats.take(i as int), prefix@).map_values(|c: CategoryInfo| c.id),
            pool_categories(cats.take(i as int), prefix@).len() <= i,
            best == topmost_with_room(pool_categories(cats.take(i as int), prefix@)),
        decreases categories.len() - i,
    {
        let ghost before = pool_categories(cats.take(i as int), prefix@);
        assert(cats.take(i + 1).drop_last() =~= cats.take(i as int));
        let c = &categories[i];
        let name = chars_of(c.name.as_str());
        if starts_with_str(&name, prefix) {
            assert(before.push(*c).drop_last() =~= before);
            ids.push(c.id);
            assert(ids@ =~= before.push(*c).map_values(|c: CategoryInfo| c.id));
            if c.text_channels < TEXT_CATEGORY_CHANNEL_CAP {
                let here = (c.position, c.id);
                best = match best {
                    Some(r) => if r.0 < here.0 || (r.0 == here.0 && r.1 <= here.1) {
                        Some(r)
                    } else {
                        Some(here)
                    },
                    None => Some(here),
                };
            }
        }
        i += 1;
    }
    assert(cats.take(cats.len() as int) =~= cats);
    match best {
        None => {
            let n = ids.len() as u64;
            let mut name = String::from_str(prefix);
            name.append("-");
            push_decimal(&mut name, n + 1);
            let p = (position_base as i128) + (n as i128);
            let position: u16 = if p < 0 {
                0
            } else if p > 65_535 {
                65_535
            } else {
                p as u16
            };
            PoolStep::Create { name, position }
        },
        Some(t) => {
            let mut pool_vec = ids;
            if let Some(c) = configured {
                if !contains_id(&pool_vec, c) {
                    pool_vec.push(c);
                }
            }
            PoolStep::Ready { pool: pool_vec, active: t.1 }
        },
    }
}

/// The text channels of the pool to move to the archive category: past the
/// first `capacity` when the most recently active come first (then by
/// position and id), sparing any with a message within `lookback` seconds
/// before `now`.
pub fn channels_to_archive(
    channels: &Vec<ChannelInfo>,
    pool: &Vec<u64>,
    capacity: usize,
    now: i64,
    lookback: u64,
) -> (ids: Vec<u64>)
    ensures
        ids@ == overflow_ids(channels@, pool@, capacity as nat, now, lookback),
{
    let mut keys: Vec<(u64, u64, u64, bool)> = Vec::new();
    let mut i: usize = 0;
    while i < channels.len()
        invariant
            i <= channels@.len(),
            keys@ == pool_text_channels(channels@.take(i as int), pool@, now, lookback),
        decreases channels.len() - i,
    {
        assert(channels@.take(i + 1).drop_last() =~= channels@.take(i as int));
        let c = &channels[i];
        let in_pool = match c.parent_id {
            Some(p) => contains_id(pool, p),
            None => false,
        };
        if c.is_text && in_pool {
            keys.push(
                (
                    staleness_of(c.last_activity),
                    c.position,
                    c.id,
                    recently_active_exec(c.last_activity, now, lookback),
                ),
            );
        }
        i += 1;
    }
    assert(channels@.take(channels@.len() as int) =~= channels@);
    let sorted = sort_keys(&keys);
    let k: usize = if capacity <= sorted.len() {
        capacity
    } else {
        sorted.len()
    };
    let mut ids: Vec<u64> = Vec::new();
    let mut j: usize = k;
    while j < sorted.len()
        invariant
            k <= j <= sorted@.len(),
            ids@ == stale_ids(sorted@.subrange(k as int, j as int)),
        decreases sorted.len() - j,
    {
        assert(sorted@.subrange(k as int, j + 1).drop_last() =~= sorted@.subrange(k as int, j as int));
        if !sorted[j].3 {
            ids.push(sorted[j].2);
        }
        j += 1;
    }
    assert(sorted@.subrange(k as int, sorted@.len() as int) =~= sorted@.skip(k as int));
    ids
}

/// The text channels of the pool to move to the archive category, judged at
/// the current instant; the clock error when the system clock cannot be read.
pub fn channels_to_archive_now(
    channels: &Vec<ChannelInfo>,
    pool: &Vec<u64>,
    capacity: usize,
    lookback: u64,
) -> (r: Result<Vec<u64>, ArchiveError>)
    ensures
        r matches Err(e) ==> e == ArchiveError::ClockUnreadable,
        r matches Ok(ids) ==> exists|now: i64|
            0 <= now <= LATEST_MICROS && ids@ == #[trigger] overflow_ids(
                channels@,
                pool@,
                capacity as nat,
                now,
                lookback,
            ),
{
    match now_micros() {
        None => Err(ArchiveError::ClockUnreadable),
        Some(now) => Ok(channels_to_archive(channels, pool, capacity, now, lookback)),
    }
}

/// The ids of the text channels in the archive category, in the given order.
pub open spec fn archived_ids(channels: Seq<ChannelInfo>, archive_category: u64) -> Seq<u64>
    decreases channels.len(),
{
    if channels.len() == 0 {
        Seq::empty()
    } else {
        let c = channels.last();
        let rest = archived_ids(channels.drop_last(), archive_category);
        if c.is_text && c.parent_id == Some(archive_category) {
            rest.push(c.id)
        } else {
            rest
        }
    }
}

/// The text channels that sit in the archive category.
pub fn archived_channels(channels: &Vec<ChannelInfo>, archive_category: u64) -> (ids: Vec<u64>)
    ensures
        ids@ == archived_ids(channels@, archive_category),
{
    let mut ids: Vec<u64> = Vec::new();
    let mut i: usize = 0;
    while i < channels.len()
        invariant
            i <= channels@.len(),
            ids@ == archived_ids(channels@.take(i as int), archive_category),
        decreases channels.len() - i,
    {
        assert(channels@.take(i + 1).drop_last() =~= channels@.take(i as int));
        if channels[i].is_text && channels[i].parent_id == Some(archive_category) {
            ids.push(channels[i].id);
        }
        i += 1;
    }
    assert(channels@.take(channels@.len() as int) =~= channels@);
    ids
}


/// The archive record of a channel.
#[derive(Debug, Clone, Copy, PartialEq, Eq)]
pub struct ArchiveRecord {
    pub channel_id: u64,
    pub guild_id: u64,
    pub original_category_id: u64,
    pub archived_at: i64,
    pub expires_at: i64,
    pub notice_sent_at: Option<i64>,
}

/// The record's instants are ones a `DateTime<Utc>` can hold.
pub open spec fn record_in_range(r: ArchiveRecord) -> bool {
    &&& representable(r.archived_at as int)
    &&& representable(r.expires_at as int)
    &&& r.notice_sent_at matches Some(n) ==> representable(n as int)
}

/// The expiry once the grace period counted from the archive time is
/// applied (it only ever moves later).
pub open spec fn expiry_after_grace(r: ArchiveRecord, grace: u64) -> int {
    let computed = r.archived_at + span_micros(grace);
    if computed > r.expires_at {
        computed
    } else {
        r.expires_at as int
    }
}

/// The pass sends the deletion warning: none was sent yet, and the expiry is
/// at most `notice` seconds away.
pub open spec fn warns(r: ArchiveRecord, grace: u64, notice: u64, now: i64) -> bool {
    r.notice_sent_at is None && expiry_after_grace(r, grace) - span_micros(notice) <= now
}

/// The expiry after the pass: a warning pushes it to at least `notice`
/// seconds after the warning.
pub open spec fn expiry_after_pass(r: ArchiveRecord, grace: u64, notice: u64, now: i64) -> int {
    let e1 = expiry_after_grace(r, grace);
    if warns(r, grace, notice, now) {
        if e1 < now + span_micros(notice) {
            now + span_micros(notice)
        } else {
            e1
        }
    } else {
        e1
    }
}

/// When the warning was sent, after the pass.
pub open spec fn notice_after_pass(r: ArchiveRecord, grace: u64, notice: u64, now: i64) -> Option<
    i64,
> {
    if warns(r, grace, notice, now) {
        Some(now)
    } else {
        r.notice_sent_at
    }
}

/// The pass deletes the channel: its expiry has come.
pub open spec fn deletes(r: ArchiveRecord, grace: u64, notice: u64, now: i64) -> bool {
    expiry_after_pass(r, grace, notice, now) <= now
}

/// The instants the pass computes stay representable.
pub open spec fn pass_in_range(r: ArchiveRecord, grace: u64, notice: u64, now: i64) -> bool {
    &&& representable(now as int)
    &&& delta_seconds_ok(grace)
    &&& delta_seconds_ok(notice)
    &&& representable(r.archived_at + span_micros(grace))
    &&& representable(expiry_after_grace(r, grace) - span_micros(notice))
    &&& warns(r, grace, notice, now) ==> representable(now + span_micros(notice))
}

/// The topic of an archived channel, from its two instants as written.
pub open spec fn topic_words(archived: Seq<char>, expires: Seq<char>) -> Seq<char> {
    "Archived on "@ + archived + ". Scheduled for deletion on "@ + expires
        + " unless reopened or extended."@
}

/// The topic of an archived channel.
pub open spec fn archive_topic_text(archived_at: i64, expires_at: i64, zone: Seq<char>) -> Seq<
    char,
> {
    topic_words(
        zoned_timestamp_text(archived_at as int, zone),
        zoned_timestamp_text(expires_at as int, zone),
    )
}

/// The topic of an archived channel, from its two instants as written.
pub fn archive_topic(archived: &str, expires: &str) -> (t: String)
    ensures
        t@ == topic_words(archived@, expires@),
{
    let mut t = String::from_str("Archived on ");
    t.append(archived);
    t.append(". Scheduled for deletion on ");
    t.append(expires);
    t.append(" unless reopened or extended.");
    t
}

/// The topic of an archived channel: when it was archived and when it goes.
pub fn format_archive_topic(archived_at: i64, expires_at: i64, time_zone: &Zone) -> (t: String)
    requires
        representable(archived_at as int),
        representable(expires_at as int),
    ensures
        t@ == archive_topic_text(archived_at, expires_at, time_zone@),
{
    let a = format_instant(archived_at, time_zone);
    let e = format_instant(expires_at, time_zone);
    archive_topic(a.as_str(), e.as_str())
}

/// What one archive pass does to an archived channel, in order: store the
/// expiry after grace, warn, store the expiry after the warning, delete, or
/// refresh the topic.
#[derive(Debug, Clone, PartialEq, Eq)]
pub struct ArchivePlan {
    pub record: ArchiveRecord,
    pub grace_update: Option<(i64, Option<i64>)>,
    pub warning_expires_at: Option<i64>,
    pub notice_update: Option<(i64, Option<i64>)>,
    pub delete: bool,
    pub topic: Option<String>,
    /// The clock reading the pass judged at, when it read the clock itself.
    pub judged_by: Option<ClockReading>,
}

/// The plan of one archive pass at `now` (see `plan_archived_channel`).
pub open spec fn plan_matches(
    p: ArchivePlan,
    record: ArchiveRecord,
    grace: u64,
    notice: u64,
    now: i64,
    current_topic: Option<&str>,
    zone: Seq<char>,
) -> bool {
    &&& p.record.channel_id == record.channel_id
    &&& p.record.guild_id == record.guild_id
    &&& p.record.original_category_id == record.original_category_id
    &&& p.record.archived_at == record.archived_at
    &&& p.record.expires_at == expiry_after_pass(record, grace, notice, now)
    &&& p.record.notice_sent_at == notice_after_pass(record, grace, notice, now)
    &&& p.grace_update == (if expiry_after_grace(record, grace) != record.expires_at {
            Some((expiry_after_grace(record, grace) as i64, record.notice_sent_at))
        } else {
            None
        })
    &&& p.warning_expires_at == (if warns(record, grace, notice, now) {
            Some(expiry_after_grace(record, grace) as i64)
        } else {
            None
        })
    &&& p.notice_update == (if warns(record, grace, notice, now) {
            Some((expiry_after_pass(record, grace, notice, now) as i64, Some(now)))
        } else {
            None
        })
    &&& p.delete == deletes(record, grace, notice, now)
    &&& p.delete ==> p.topic is None
    &&& !p.delete ==> (p.topic is None <==> (current_topic matches Some(c) && c@
            == archive_topic_text(record.archived_at, p.record.expires_at, zone)))
    &&& p.topic matches Some(t) ==> t@ == archive_topic_text(
            record.archived_at,
            p.record.expires_at,
            zone,
        )
}

/// Plans one archive pass over an archived channel at instant `now`.
pub fn plan_archived_channel(
    record: ArchiveRecord,
    grace: u64,
    notice: u64,
    now: i64,
    current_topic: Option<&str>,
    time_zone: &Zone,
) -> (p: ArchivePlan)
    requires
        record_in_range(record),
        representable(now as int),
        pass_in_range(record, grace, notice, now),
    ensures
        plan_matches(p, record, grace, notice, now, current_topic, time_zone@),
        record_in_range(p.record),
{
    let mut r = record;
    let computed = add_seconds(r.archived_at, grace);
    let mut grace_update = None;
    if computed > r.expires_at {
        r.expires_at = computed;
        grace_update = Some((r.expires_at, r.notice_sent_at));
    }
    let cutoff = sub_seconds(r.expires_at, notice);
    let mut warning_expires_at = None;
    let mut notice_update = None;
    if r.notice_sent_at.is_none() && cutoff <= now {
        warning_expires_at = Some(r.expires_at);
        r.notice_sent_at = Some(now);
        let min_expiration = add_seconds(now, notice);
        if r.expires_at < min_expiration {
            r.expires_at = min_expiration;
        }
        notice_update = Some((r.expires_at, r.notice_sent_at));
    }
    if r.expires_at <= now {
        return ArchivePlan {
            record: r,
            grace_update,
            warning_expires_at,
            notice_update,
            delete: true,
            topic: None,
            judged_by: None,
        };
    }
    let formatted = format_archive_topic(r.archived_at, r.expires_at, time_zone);
    let same = match current_topic {
        Some(c) => str_eq(c, formatted.as_str()),
        None => false,
    };
    let topic = if same {
        None
    } else {
        Some(formatted)
    };
    ArchivePlan {
        record: r,
        grace_update,
        warning_expires_at,
        notice_update,
        delete: false,
        topic,
        judged_by: None,
    }
}

fn in_range(t: i128) -> (b: bool)
    ensures
        b == representable(t as int),
{
    (EARLIEST_MICROS as i128) <= t && t <= (LATEST_MICROS as i128)
}

/// Whether an archive pass at `now` stays within representable instants.
pub fn pass_fits(record: ArchiveRecord, grace: u64, notice: u64, now: i64) -> (b: bool)
    ensures
        b == pass_in_range(record, grace, notice, now),
{
    let max_delta: u64 = 9_223_372_036_854_775;
    if !in_range(now as i128) || grace > max_delta || notice > max_delta {
        return false;
    }
    let computed: i128 = (record.archived_at as i128) + (grace as i128) * 1_000_000;
    if !in_range(computed) {
        return false;
    }
    let e1: i128 = if computed > record.expires_at as i128 {
        computed
    } else {
        record.expires_at as i128
    };
    let cutoff: i128 = e1 - (notice as i128) * 1_000_000;
    if !in_range(cutoff) {
        return false;
    }
    let warn = record.notice_sent_at.is_none() && cutoff <= now as i128;
    if warn && !in_range((now as i128) + (notice as i128) * 1_000_000) {
        return false;
    }
    true
}

/// What an archive pass at `now` gives: nothing exactly when the instants
/// it computes fall outside what chrono holds, else the plan.
pub open spec fn pass_outcome(
    p: Option<ArchivePlan>,
    record: ArchiveRecord,
    grace: u64,
    notice: u64,
    now: i64,
    current_topic: Option<&str>,
    zone: Seq<char>,
) -> bool {
    &&& (p is None <==> !pass_in_range(record, grace, notice, now))
    &&& (p matches Some(q) ==> plan_matches(q, record, grace, notice, now, current_topic, zone))
}

/// The archive pass over an archived channel at instant `now`.
pub fn archive_pass(
    record: ArchiveRecord,
    grace: u64,
    notice: u64,
    now: i64,
    current_topic: Option<&str>,
    time_zone: &Zone,
) -> (p: Option<ArchivePlan>)
    requires
        record_in_range(record),
    ensures
        pass_outcome(p, record, grace, notice, now, current_topic, time_zone@),
{
    if !pass_fits(record, grace, notice, now) {
        return None;
    }
    Some(plan_archived_channel(record, grace, notice, now, current_topic, time_zone))
}

/// The archive pass over an archived channel, at the current instant; the
/// clock error when the system clock cannot be read.
pub fn handle_archived_channel(
    record: ArchiveRecord,
    grace: u64,
    notice: u64,
    current_topic: Option<&str>,
    time_zone: &Zone,
) -> (r: Result<Option<ArchivePlan>, ArchiveError>)
    requires
        record_in_range(record),
    ensures
        r matches Err(e) ==> e == ArchiveError::ClockUnreadable,
        r matches Ok(p) ==> exists|now: i64|
            0 <= now <= LATEST_MICROS && #[trigger] pass_outcome(
                p,
                record,
                grace,
                notice,
                now,
                current_topic,
                time_zone@,
            ),
        r matches Ok(Some(p)) ==> p.judged_by matches Some(c) && 0 <= c@ <= LATEST_MICROS
            && pass_outcome(Some(p), record, grace, notice, c@ as i64, current_topic, time_zone@),
{
    let reading = match read_clock() {
        Some(c) => c,
        None => {
            return Err(ArchiveError::ClockUnreadable);
        },
    };
    match reading.micros() {
        None => Err(ArchiveError::ClockUnreadable),
        Some(now) => {
            let p = archive_pass(record, grace, notice, now, current_topic, time_zone);
            match p {
                None => {
                    assert(pass_outcome(None, record, grace, notice, now, current_topic, time_zone@));
                    Ok(None)
                },
                Some(plan) => {
                    let judged = ArchivePlan { judged_by: Some(reading), ..plan };
                    assert(pass_outcome(
                        Some(judged),
                        record,
                        grace,
                        notice,
                        now,
                        current_topic,
                        time_zone@,
                    ));
                    Ok(Some(judged))
                },
            }
        },
    }
}

/// The record of a channel archived at `now`, expiring `grace` seconds later.
pub fn new_archive_record(
    channel_id: u64,
    guild_id: u64,
    parent_id: Option<u64>,
    default_category: u64,
    now: i64,
    grace: u64,
) -> (r: ArchiveRecord)
    requires
        representable(now as int),
        delta_seconds_ok(grace),
        representable(now + span_micros(grace)),
    ensures
        r.channel_id == channel_id,
        r.guild_id == guild_id,
        r.original_category_id == (match parent_id {
            Some(p) => p,
            None => default_category,
        }),
        r.archived_at == now,
        r.expires_at == now + span_micros(grace),
        r.notice_sent_at is None,
        record_in_range(r),
{
    ArchiveRecord {
        channel_id,
        guild_id,
        original_category_id: match parent_id {
            Some(p) => p,
            None => default_category,
        },
        archived_at: now,
        expires_at: add_seconds(now, grace),
        notice_sent_at: None,
    }
}

/// What archiving a channel at `now` gives: nothing exactly when `now` or
/// the deadline `grace` seconds later falls outside what chrono holds, else
/// the new record and the channel's topic.
pub open spec fn archive_outcome(
    r: Option<(ArchiveRecord, String)>,
    channel_id: u64,
    guild_id: u64,
    parent_id: Option<u64>,
    default_category: u64,
    now: i64,
    grace: u64,
    zone: Seq<char>,
) -> bool {
    &&& (r is None <==> !(representable(now as int) && delta_seconds_ok(grace) && fits_after(
        now,
        grace,
    )))
    &&& (r matches Some((rec, topic)) ==> {
        &&& rec == ArchiveRecord {
            channel_id,
            guild_id,
            original_category_id: match parent_id {
                Some(p) => p,
                None => default_category,
            },
            archived_at: now,
            expires_at: (now + span_micros(grace)) as i64,
            notice_sent_at: None,
        }
        &&& topic@ == archive_topic_text(now, rec.expires_at, zone)
    })
}

/// Archives a channel at `now`: its new record, and the topic it gets in
/// the archive category.
pub fn archive_record_at(
    channel_id: u64,
    guild_id: u64,
    parent_id: Option<u64>,
    default_category: u64,
    now: i64,
    grace: u64,
    time_zone: &Zone,
) -> (r: Option<(ArchiveRecord, String)>)
    ensures
        archive_outcome(r, channel_id, guild_id, parent_id, default_category, now, grace, time_zone@),
{
    let max_delta: u64 = 9_223_372_036_854_775;
    if !in_range(now as i128) || grace > max_delta || !in_range(
        (now as i128) + (grace as i128) * 1_000_000,
    ) {
        return None;
    }
    let record = new_archive_record(channel_id, guild_id, parent_id, default_category, now, grace);
    let topic = format_archive_topic(record.archived_at, record.expires_at, time_zone);
    Some((record, topic))
}

/// Archives a channel now: its new record, and the topic it gets in the
/// archive category; the clock error when the system clock cannot be read.
pub fn archive_channel(
    channel_id: u64,
    guild_id: u64,
    parent_id: Option<u64>,
    default_category: u64,
    grace: u64,
    time_zone: &Zone,
) -> (r: Result<Option<(ArchiveRecord, String)>, ArchiveError>)
    ensures
        r matches Err(e) ==> e == ArchiveError::ClockUnreadable,
        r matches Ok(a) ==> exists|now: i64|
            0 <= now <= LATEST_MICROS && #[trigger] archive_outcome(
                a,
                channel_id,
                guild_id,
                parent_id,
                default_category,
                now,
                grace,
                time_zone@,
            ),
{
    match now_micros() {
        None => Err(ArchiveError::ClockUnreadable),
        Some(now) => {
            let a = archive_record_at(
                channel_id,
                guild_id,
                parent_id,
                default_category,
                now,
                grace,
                time_zone,
            );
            assert(archive_outcome(a, channel_id, guild_id, parent_id, default_category, now, grace, time_zone@));
            Ok(a)
        },
    }
}

/// Why a channel could not be extended.
#[derive(Debug, Clone, Copy, PartialEq, Eq)]
pub enum ArchiveError {
    /// The channel has no archive record.
    NotScheduled,
    /// The new deadline would fall outside what chrono holds.
    OutOfRange,
    /// The system clock could not be read.
    ClockUnreadable,
}

impl ArchiveError {
    /// The message shown to the user.
    pub fn message(&self) -> (m: String)
        ensures
            m@ == (match *self {
                ArchiveError::NotScheduled => "This channel is not scheduled for deletion."@,
                ArchiveError::OutOfRange => "The new deletion deadline is out of range."@,
                ArchiveError::ClockUnreadable => "The clock could not be read."@,
            }),
    {
        match self {
            ArchiveError::NotScheduled => String::from_str("This channel is not scheduled for deletion."),
            ArchiveError::OutOfRange => String::from_str("The new deletion deadline is out of range."),
            ArchiveError::ClockUnreadable => String::from_str("The clock could not be read."),
        }
    }
}

/// An extended archive record, its new topic and the reply to the user.
#[derive(Debug, Clone, PartialEq, Eq)]
pub struct ArchiveExtension {
    pub record: ArchiveRecord,
    pub topic: String,
    pub reply: String,
    /// The clock reading the extension was made at, when it read the clock
    /// itself.
    pub judged_by: Option<ClockReading>,
}

/// The deadline after an extension at `now`: the later of the current one
/// and `extension` seconds from now.
pub open spec fn extended_expiry(r: ArchiveRecord, now: i64, extension: u64) -> int {
    let candidate = now + span_micros(extension);
    if r.expires_at >= candidate {
        r.expires_at as int
    } else {
        candidate
    }
}

/// The reply to an extension, from the new deadline as written.
pub fn extension_reply(when: &str) -> (r: String)
    ensures
        r@ == "Extended deletion deadline to "@ + when@ + "."@,
{
    let mut r = String::from_str("Extended deletion deadline to ");
    r.append(when);
    r.append(".");
    r
}

/// What extending at `now` gives: no record is `NotScheduled`; a deadline
/// that chrono cannot hold is `OutOfRange`; else the record with the later
/// deadline and no warning, its topic and the reply.
pub open spec fn extension_outcome(
    r: Result<ArchiveExtension, ArchiveError>,
    record: Option<ArchiveRecord>,
    now: i64,
    extension: u64,
    zone: Seq<char>,
) -> bool {
    match record {
        None => r == Err::<ArchiveExtension, ArchiveError>(ArchiveError::NotScheduled),
        Some(rec) => if !(delta_seconds_ok(extension) && fits_after(now, extension)) {
            r == Err::<ArchiveExtension, ArchiveError>(ArchiveError::OutOfRange)
        } else {
            r matches Ok(x) && {
                &&& x.record == ArchiveRecord {
                    expires_at: extended_expiry(rec, now, extension) as i64,
                    notice_sent_at: None,
                    ..rec
                }
                &&& x.topic@ == archive_topic_text(rec.archived_at, x.record.expires_at, zone)
                &&& x.reply@ == "Extended deletion deadline to "@ + zoned_timestamp_text(
                    x.record.expires_at as int,
                    zone,
                ) + "."@
            }
        },
    }
}

/// Extends an archived channel at `now`; the warning is reset.
pub fn extension_at(record: Option<ArchiveRecord>, now: i64, extension: u64, time_zone: &Zone) -> (r:
    Result<ArchiveExtension, ArchiveError>)
    requires
        record matches Some(rec) ==> record_in_range(rec),
    ensures
        extension_outcome(r, record, now, extension, time_zone@),
{
    match record {
        None => Err(ArchiveError::NotScheduled),
        Some(rec) => {
            let max_delta: u64 = 9_223_372_036_854_775;
            if extension > max_delta || !in_range((now as i128) + (extension as i128) * 1_000_000) {
                return Err(ArchiveError::OutOfRange);
            }
            let candidate = add_seconds(now, extension);
            let new_expiration = if rec.expires_at >= candidate {
                rec.expires_at
            } else {
                candidate
            };
            let record = ArchiveRecord {
                expires_at: new_expiration,
                notice_sent_at: None,
                ..rec
            };
            let topic = format_archive_topic(record.archived_at, record.expires_at, time_zone);
            let when = format_instant(record.expires_at, time_zone);
            let reply = extension_reply(when.as_str());
            Ok(ArchiveExtension { record, topic, reply, judged_by: None })
        },
    }
}

/// Extends an archived channel now (the Extend button and `/open`); the
/// clock error when the system clock cannot be read.
pub fn extend_archived_channel(record: Option<ArchiveRecord>, extension: u64, time_zone: &Zone) -> (r:
    Result<ArchiveExtension, ArchiveError>)
    requires
        record matches Some(rec) ==> record_in_range(rec),
    ensures
        record is None <==> r == Err::<ArchiveExtension, ArchiveError>(ArchiveError::NotScheduled),
        r == Err::<ArchiveExtension, ArchiveError>(ArchiveError::ClockUnreadable) || exists|now: i64|
            0 <= now <= LATEST_MICROS && #[trigger] extension_outcome(
                r,
                record,
                now,
                extension,
                time_zone@,
            ),
        r matches Ok(x) ==> x.judged_by matches Some(c) && 0 <= c@ <= LATEST_MICROS
            && extension_outcome(r, record, c@ as i64, extension, time_zone@),
{
    if record.is_none() {
        let r = Err(ArchiveError::NotScheduled);
        assert(extension_outcome(r, record, 0, extension, time_zone@));
        return r;
    }
    let reading = match read_clock() {
        Some(c) => c,
        None => {
            return Err(ArchiveError::ClockUnreadable);
        },
    };
    match reading.micros() {
        None => Err(ArchiveError::ClockUnreadable),
        Some(now) => {
            let r = extension_at(record, now, extension, time_zone);
            assert(extension_outcome(r, record, now, extension, time_zone@));
            match r {
                Ok(x) => {
                    let judged = Ok(ArchiveExtension { judged_by: Some(reading), ..x });
                    assert(extension_outcome(judged, record, now, extension, time_zone@));
                    judged
                },
                Err(e) => Err(e),
            }
        },
    }
}

/// The in-channel deletion warning.
pub fn delete_warning_content(expires_at: i64, time_zone: &Zone) -> (c: String)
    requires
        representable(expires_at as int),
    ensures
        c@ == "This channel is scheduled for deletion on "@ + zoned_timestamp_text(
            expires_at as int,
            time_zone@,
        ) + ". Use /open or Extend to keep it alive."@,
{
    let when = format_instant(expires_at, time_zone);
    deletion_notice(when.as_str())
}

/// The in-channel deletion warning, from the deadline as written.
pub fn deletion_notice(when: &str) -> (c: String)
    ensures
        c@ == "This channel is scheduled for deletion on "@ + when@
            + ". Use /open or Extend to keep it alive."@,
{
    let mut c = String::from_str("This channel is scheduled for deletion on ");
    c.append(when);
    c.append(". Use /open or Extend to keep it alive.");
    c
}

/// How a book is named in a deletion warning DM.
pub fn archived_book_entry(isbn: &str, book: &Option<DbIsbn>) -> (e: String)
    ensures
        e@ == (match book {
            Some(b) => "**"@ + titled(b.title@, b.subtitle.deep_view()) + "** (`"@ + b.isbn_13@
                + "`)"@,
            None => "`"@ + isbn@ + "`"@,
        }),
{
    match book {
        Some(b) => {
            let mut e = String::from_str("**");
            let title = display_title(b.title.as_str(), &b.subtitle);
            e.append(title.as_str());
            e.append("** (`");
            e.append(b.isbn_13.as_str());
            e.append("`)");
            e
        },
        None => {
            let mut e = String::from_str("`");
            e.append(isbn);
            e.append("`");
            e
        },
    }
}

/// The deletion warning DM to a watcher.
pub fn delete_warning_dm(entry: &str, expires_at: i64, time_zone: &Zone) -> (c: String)
    requires
        representable(expires_at as int),
    ensures
        c@ == entry@ + " is scheduled for deletion on "@ + zoned_timestamp_text(
            expires_at as int,
            time_zone@,
        ) + ". Tap Extend to keep it."@,
{
    let when = format_instant(expires_at, time_zone);
    deletion_dm(entry, when.as_str())
}

/// The deletion warning DM, from the book's entry and the deadline as written.
pub fn deletion_dm(entry: &str, when: &str) -> (c: String)
    ensures
        c@ == entry@ + " is scheduled for deletion on "@ + when@ + ". Tap Extend to keep it."@,
{
    let mut c = String::from_str(entry);
    c.append(" is scheduled for deletion on ");
    c.append(when);
    c.append(". Tap Extend to keep it.");
    c
}

/// The Extend button of a deletion warning.
pub fn extend_button(channel_id: u64) -> (b: ButtonSpec)
    ensures
        b matches ButtonSpec::Action { custom_id, label, tone } && custom_id@
            == EXTEND_ACTION_PREFIX@ + decimal(channel_id as nat) && label@ == "Extend"@ && tone
            == ButtonTone::Primary,
{
    ButtonSpec::Action {
        custom_id: extend_custom_id(channel_id),
        label: String::from_str("Extend"),
        tone: ButtonTone::Primary,
    }
}

/// The link to the text channel in a deletion warning DM.
pub fn open_text_channel_button(guild_id: u64, channel_id: u64) -> (b: ButtonSpec)
    ensures
        b matches ButtonSpec::Link { url, label } && url@ == channel_url_text(guild_id, channel_id)
            && label@ == "Open Text Channel"@,
{
    ButtonSpec::Link {
        url: channel_url(guild_id, channel_id),
        label: String::from_str("Open Text Channel"),
    }
}

/// The deletion warning DMs: one to each watcher of the channel's book, in
/// order, naming the book and the deadline, with an Extend button and a
/// link to the channel.
pub fn plan_delete_warning_dms(
    guild_id: u64,
    channel_id: u64,
    entry: &str,
    watchers: &Vec<u64>,
    expires_at: i64,
    time_zone: &Zone,
) -> (dms: Vec<SessionDm>)
    requires
        representable(expires_at as int),
    ensures
        dms@.len() == watchers@.len(),
        forall|k: int|
            0 <= k < dms@.len() ==> {
                &&& (#[trigger] dms@[k]).user_id == watchers@[k]
                &&& dms@[k].content@ == entry@ + " is scheduled for deletion on "@
                    + zoned_timestamp_text(expires_at as int, time_zone@)
                    + ". Tap Extend to keep it."@
                &&& dms@[k].buttons@.len() == 2
                &&& dms@[k].buttons@[0] matches ButtonSpec::Action { custom_id, label, tone }
                    && custom_id@ == EXTEND_ACTION_PREFIX@ + decimal(channel_id as nat) && label@
                    == "Extend"@ && tone == ButtonTone::Primary
                &&& dms@[k].buttons@[1] matches ButtonSpec::Link { url, label } && url@
                    == channel_url_text(guild_id, channel_id) && label@ == "Open Text Channel"@
            },
{
    let content = delete_warning_dm(entry, expires_at, time_zone);
    let mut dms: Vec<SessionDm> = Vec::new();
    let mut i: usize = 0;
    while i < watchers.len()
        invariant
            i <= watchers@.len(),
            dms@.len() == i,
            content@ == entry@ + " is scheduled for deletion on "@ + zoned_timestamp_text(
                expires_at as int,
                time_zone@,
            ) + ". Tap Extend to keep it."@,
            forall|k: int|
                0 <= k < i ==> {
                    &&& (#[trigger] dms@[k]).user_id == watchers@[k]
                    &&& dms@[k].content@ == content@
                    &&& dms@[k].buttons@.len() == 2
                    &&& dms@[k].buttons@[0] matches ButtonSpec::Action { custom_id, label, tone }
                        && custom_id@ == EXTEND_ACTION_PREFIX@ + decimal(channel_id as nat)
                        && label@ == "Extend"@ && tone == ButtonTone::Primary
                    &&& dms@[k].buttons@[1] matches ButtonSpec::Link { url, label } && url@
                        == channel_url_text(guild_id, channel_id) && label@ == "Open Text Channel"@
                },
        decreases watchers.len() - i,
    {
        let mut buttons: Vec<ButtonSpec> = Vec::new();
        buttons.push(extend_button(channel_id));
        buttons.push(open_text_channel_button(guild_id, channel_id));
        dms.push(SessionDm { user_id: watchers[i], content: String::from_str(content.as_str()), buttons });
        i += 1;
    }
    dms
}

/// A pass deletes exactly the channels whose time is up: with the warning
/// already sent and both the recorded deadline and the end of the grace
/// period at or before the instant judged at, the plan deletes the channel;
/// a channel whose recorded deadline lies after that instant is kept.
/// (`handle_archived_channel` judges at the clock reading it carries.)
pub proof fn law_pass_deletes_when_time_is_up(
    p: ArchivePlan,
    record: ArchiveRecord,
    grace: u64,
    notice: u64,
    now: i64,
    current_topic: Option<&str>,
    zone: Seq<char>,
)
    requires
        pass_outcome(Some(p), record, grace, notice, now, current_topic, zone),
    ensures
        record.notice_sent_at is Some && record.expires_at <= now && record.archived_at + grace
            * 1_000_000 <= now ==> p.delete && p.topic is None,
        record.expires_at > now ==> !p.delete,
{
}

/// An archive pass never moves a channel's deadline earlier.
pub proof fn law_expiry_never_earlier(r: ArchiveRecord, grace: u64, notice: u64, now: i64)
    ensures
        expiry_after_pass(r, grace, notice, now) >= r.expires_at,
{
}

/// Once the deletion warning goes out, the channel lives at least `notice`
/// seconds more.
pub proof fn law_warning_lead_time(r: ArchiveRecord, grace: u64, notice: u64, now: i64)
    requires
        warns(r, grace, notice, now),
    ensures
        expiry_after_pass(r, grace, notice, now) >= now + span_micros(notice),
        notice_after_pass(r, grace, notice, now) == Some(now),
{
}

/// A channel is never deleted without a warning sent in an earlier pass:
/// with a positive notice period, a pass that deletes finds the warning
/// already recorded.
pub proof fn law_no_deletion_without_warning(r: ArchiveRecord, grace: u64, notice: u64, now: i64)
    requires
        notice > 0,
        deletes(r, grace, notice, now),
    ensures
        r.notice_sent_at is Some,
        !warns(r, grace, notice, now),
{
}

/// An extension never moves the deadline earlier, gives at least
/// `extension` seconds from now and clears the warning.
pub proof fn law_extension_extends(r: ArchiveRecord, now: i64, extension: u64)
    ensures
        extended_expiry(r, now, extension) >= r.expires_at,
        extended_expiry(r, now, extension) >= now + span_micros(extension),
{
}

} // verus!
