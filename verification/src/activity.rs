//! Text-channel activity tiers: channels are ranked by their activity score,
//! the best of a lower category swap places with the worst of the category
//! above, and the tail of the lowest category is pruned.
//!
//! Scores are carried as `score_key`, an integer that orders channels the
//! way their scores do (a higher key is a higher score).

use vstd::multiset::Multiset;
use vstd::prelude::*;
use std::collections::HashSet;

verus! {

/// One text channel with its activity score.
#[derive(Debug, Clone, Copy, PartialEq, Eq)]
pub struct ChannelActivity {
    pub guild_id: u64,
    pub channel_id: u64,
    pub parent_id: Option<u64>,
    pub score_key: u64,
}

/// `a` may stand before `b`: a higher score, or the same score and a
/// channel id that is not larger.
pub open spec fn precedes(a: ChannelActivity, b: ChannelActivity) -> bool {
    a.score_key > b.score_key || (a.score_key == b.score_key && a.channel_id <= b.channel_id)
}

/// Where a stable sort puts `x` among the already sorted `s`: after the
/// leading entries that may stand before it.
pub open spec fn insert_pos(s: Seq<ChannelActivity>, x: ChannelActivity) -> nat
    decreases s.len(),
{
    if s.len() == 0 || !precedes(s[0], x) {
        0
    } else {
        1 + insert_pos(s.drop_first(), x)
    }
}

/// `s` with `x` inserted where a stable sort puts it.
pub open spec fn insert_sorted(s: Seq<ChannelActivity>, x: ChannelActivity) -> Seq<
    ChannelActivity,
> {
    let p = insert_pos(s, x) as int;
    s.take(p) + seq![x] + s.skip(p)
}

/// `s` sorted by descending score, then ascending channel id; entries that
/// compare equal keep their order (a stable sort).
pub open spec fn sorted_by_score(s: Seq<ChannelActivity>) -> Seq<ChannelActivity>
    decreases s.len(),
{
    if s.len() == 0 {
        s
    } else {
        insert_sorted(sorted_by_score(s.drop_last()), s.last())
    }
}

/// Some entry of `s` has the channel id `id`.
pub open spec fn has_channel(s: Seq<ChannelActivity>, id: u64) -> bool {
    exists|i: int| 0 <= i < s.len() && s[i].channel_id == id
}

/// The entries of `s` whose channel id occurs nowhere in `ids`.
pub open spec fn without_channels_of(s: Seq<ChannelActivity>, ids: Seq<ChannelActivity>) -> Seq<
    ChannelActivity,
>
    decreases s.len(),
{
    if s.len() == 0 {
        s
    } else if has_channel(ids, s.last().channel_id) {
        without_channels_of(s.drop_last(), ids)
    } else {
        without_channels_of(s.drop_last(), ids).push(s.last())
    }
}

/// The smaller of `a` and `b`.
pub open spec fn min_nat(a: nat, b: nat) -> nat {
    if a <= b {
        a
    } else {
        b
    }
}

/// `a.saturating_sub(b)`.
pub open spec fn saturating_sub(a: nat, b: nat) -> nat {
    if a >= b {
        (a - b) as nat
    } else {
        0
    }
}

/// The two tiers after one swap: the first `swap_count` of the lower tier
/// move up, everything of the higher tier from index `capacity - swap_count`
/// on moves down, and both tiers are re-sorted.
pub open spec fn swap_pair(
    higher: Seq<ChannelActivity>,
    lower: Seq<ChannelActivity>,
    capacity: nat,
    swap_count: nat,
) -> (Seq<ChannelActivity>, Seq<ChannelActivity>) {
    let swap_start = saturating_sub(capacity, swap_count);
    let promotions = lower.take(min_nat(swap_count, lower.len()) as int);
    let demotions = higher.skip(min_nat(swap_start, higher.len()) as int);
    (
        sorted_by_score(without_channels_of(higher, demotions) + promotions),
        sorted_by_score(without_channels_of(lower, promotions) + demotions),
    )
}

/// Swaps every pair of adjacent tiers, from tier `tier` downwards.
pub open spec fn swap_from(
    cats: Seq<Seq<ChannelActivity>>,
    tier: nat,
    capacity: nat,
    swap_count: nat,
) -> Seq<Seq<ChannelActivity>>
    decreases cats.len() - tier,
{
    if tier + 1 >= cats.len() {
        cats
    } else {
        let (h, l) = swap_pair(cats[tier as int], cats[tier + 1int], capacity, swap_count);
        swap_from(cats.update(tier as int, h).update(tier + 1int, l), tier + 1, capacity, swap_count)
    }
}

/// The tiers after `apply_swaps`.
pub open spec fn swapped(cats: Seq<Seq<ChannelActivity>>, capacity: nat, swap_count: nat) -> Seq<
    Seq<ChannelActivity>,
> {
    if swap_count == 0 {
        cats
    } else {
        swap_from(cats, 0, capacity, swap_count)
    }
}

/// The view of each tier.
pub open spec fn tier_views(c: Seq<Vec<ChannelActivity>>) -> Seq<Seq<ChannelActivity>> {
    c.map_values(|v: Vec<ChannelActivity>| v@)
}

fn precedes_exec(a: &ChannelActivity, b: &ChannelActivity) -> (r: bool)
    ensures
        r == precedes(*a, *b),
{
    a.score_key > b.score_key || (a.score_key == b.score_key && a.channel_id <= b.channel_id)
}

/// Sorts channels by descending score, then ascending channel id (stable).
pub fn sort_by_score_desc(channels: &mut Vec<ChannelActivity>)
    ensures
        final(channels)@ == sorted_by_score(old(channels)@),
{
    let n: usize = channels.len();
    let mut sorted: Vec<ChannelActivity> = Vec::new();
    let mut i: usize = 0;
    while i < n
        invariant
            n == channels@.len(),
            channels@ == old(channels)@,
            i <= n,
            sorted@ == sorted_by_score(channels@.take(i as int)),
        decreases n - i,
    {
        let x = channels[i];
        let mut p: usize = 0;
        proof {
            assert(sorted@.skip(0) =~= sorted@);
        }
        while p < sorted.len() && precedes_exec(&sorted[p], &x)
            invariant
                p <= sorted@.len(),
                insert_pos(sorted@, x) == p + insert_pos(sorted@.skip(p as int), x),
            decreases sorted.len() - p,
        {
            proof {
                assert(sorted@.skip(p as int).drop_first() =~= sorted@.skip(p + 1));
            }
            p += 1;
        }
        proof {
            if p == sorted@.len() {
                assert(sorted@.skip(p as int) =~= Seq::<ChannelActivity>::empty());
            }
            assert(channels@.take(i + 1).drop_last() =~= channels@.take(i as int));
            assert(sorted@.insert(p as int, x) =~= sorted@.take(p as int) + seq![x] + sorted@.skip(
                p as int,
            ));
        }
        sorted.insert(p, x);
        i += 1;
    }
    assert(channels@.take(n as int) =~= channels@);
    *channels = sorted;
}

/// The channel ids of `ids`, as a set.
fn channel_id_set(ids: &Vec<ChannelActivity>) -> (set: HashSet<u64>)
    ensures
        forall|id: u64| #[trigger] set@.contains(id) <==> has_channel(ids@, id),
{
    broadcast use vstd::std_specs::hash::group_hash_axioms;

    let mut set: HashSet<u64> = HashSet::new();
    let mut i: usize = 0;
    while i < ids.len()
        invariant
            i <= ids@.len(),
            forall|id: u64| #[trigger] set@.contains(id) <==> has_channel(ids@.take(i as int), id),
        decreases ids.len() - i,
    {
        let x = ids[i].channel_id;
        set.insert(x);
        proof {
            let prev = ids@.take(i as int);
            let next = ids@.take(i + 1);
            assert forall|id: u64| #[trigger] set@.contains(id) <==> has_channel(next, id) by {
                if has_channel(prev, id) {
                    let k = choose|k: int| 0 <= k < prev.len() && prev[k].channel_id == id;
                    assert(next[k] == prev[k]);
                }
                if id == x {
                    assert(next[i as int].channel_id == x);
                }
                if has_channel(next, id) && id != x {
                    let k = choose|k: int| 0 <= k < next.len() && next[k].channel_id == id;
                    assert(k < i);
                    assert(prev[k] == next[k]);
                }
            }
        }
        i += 1;
    }
    assert(ids@.take(ids@.len() as int) =~= ids@);
    set
}

fn retain_without(s: &Vec<ChannelActivity>, ids: &Vec<ChannelActivity>) -> (r: Vec<
    ChannelActivity,
>)
    ensures
        r@ == without_channels_of(s@, ids@),
{
    broadcast use vstd::std_specs::hash::group_hash_axioms;

    let gone = channel_id_set(ids);
    let mut r: Vec<ChannelActivity> = Vec::new();
    let mut i: usize = 0;
    while i < s.len()
        invariant
            i <= s@.len(),
            forall|id: u64| #[trigger] gone@.contains(id) <==> has_channel(ids@, id),
            r@ == without_channels_of(s@.take(i as int), ids@),
        decreases s.len() - i,
    {
        proof {
            assert(s@.take(i + 1).drop_last() =~= s@.take(i as int));
        }
        let id = s[i].channel_id;
        if !gone.contains(&id) {
            r.push(s[i]);
        }
        i += 1;
    }
    assert(s@.take(s@.len() as int) =~= s@);
    r
}

fn copy_range(s: &Vec<ChannelActivity>, from: usize, to: usize) -> (r: Vec<ChannelActivity>)
    requires
        from <= to <= s@.len(),
    ensures
        r@ == s@.subrange(from as int, to as int),
{
    let mut r: Vec<ChannelActivity> = Vec::new();
    let mut i: usize = from;
    while i < to
        invariant
            from <= i <= to <= s@.len(),
            r@ == s@.subrange(from as int, i as int),
        decreases to - i,
    {
        r.push(s[i]);
        assert(s@.subrange(from as int, i + 1) =~= s@.subrange(from as int, i as int).push(
            s@[i as int],
        ));
        i += 1;
    }
    r
}

fn concat(a: Vec<ChannelActivity>, b: Vec<ChannelActivity>) -> (r: Vec<ChannelActivity>)
    ensures
        r@ == a@ + b@,
{
    let mut a = a;
    let mut b = b;
    a.append(&mut b);
    a
}

fn swap_two_tiers(
    higher: &Vec<ChannelActivity>,
    lower: &Vec<ChannelActivity>,
    capacity: usize,
    swap_count: usize,
) -> (r: (Vec<ChannelActivity>, Vec<ChannelActivity>))
    ensures
        (r.0@, r.1@) == swap_pair(higher@, lower@, capacity as nat, swap_count as nat),
{
    let swap_start = capacity.saturating_sub(swap_count);
    let take = if swap_count <= lower.len() {
        swap_count
    } else {
        lower.len()
    };
    let promotions = copy_range(lower, 0, take);
    let skip = if swap_start <= higher.len() {
        swap_start
    } else {
        higher.len()
    };
    let demotions = copy_range(higher, skip, higher.len());
    assert(lower@.subrange(0, take as int) =~= lower@.take(take as int));
    assert(higher@.subrange(skip as int, higher@.len() as int) =~= higher@.skip(skip as int));
    let kept_higher = retain_without(higher, &demotions);
    let kept_lower = retain_without(lower, &promotions);
    let mut new_higher = concat(kept_higher, promotions);
    let mut new_lower = concat(kept_lower, demotions);
    sort_by_score_desc(&mut new_higher);
    sort_by_score_desc(&mut new_lower);
    (new_higher, new_lower)
}

fn copy_tier(s: &Vec<ChannelActivity>) -> (r: Vec<ChannelActivity>)
    ensures
        r@ == s@,
{
    let r = copy_range(s, 0, s.len());
    assert(s@.subrange(0, s@.len() as int) =~= s@);
    r
}

/// Swaps channels between adjacent tiers, top to bottom: the best
/// `swap_count` of each lower tier change places with the entries of the
/// tier above from index `capacity - swap_count` on.
pub fn apply_swaps(categories: &mut Vec<Vec<ChannelActivity>>, capacity: usize, swap_count: usize)
    ensures
        tier_views(final(categories)@) == swapped(
            tier_views(old(categories)@),
            capacity as nat,
            swap_count as nat,
        ),
{
    if swap_count == 0 {
        return;
    }
    let n: usize = categories.len();
    let mut tier: usize = 0;
    while tier + 1 < n
        invariant
            n == categories@.len(),
            swap_count > 0,
            tier + 1 <= n || n == 0,
            tier <= n,
            swap_from(tier_views(categories@), tier as nat, capacity as nat, swap_count as nat)
                == swapped(tier_views(old(categories)@), capacity as nat, swap_count as nat),
        decreases n - tier,
    {
        let (h, l) = swap_two_tiers(&categories[tier], &categories[tier + 1], capacity, swap_count);
        let ghost before = tier_views(categories@);
        categories.set(tier, h);
        categories.set(tier + 1, l);
        proof {
            assert(tier_views(categories@) =~= before.update(tier as int, h@).update(
                tier + 1,
                l@,
            ));
        }
        tier += 1;
    }
}

/// The lowest tier after pruning: its first `capacity - prune_count` entries.
pub open spec fn prune_threshold(len: nat, capacity: nat, prune_count: nat) -> nat {
    min_nat(saturating_sub(capacity, prune_count), len)
}

/// Cuts the lowest tier down to `capacity - prune_count` entries and returns
/// the entries cut off (nothing when there are no tiers or nothing to prune).
pub fn prune_lowest_category(
    categories: &mut Vec<Vec<ChannelActivity>>,
    capacity: usize,
    prune_count: usize,
) -> (pruned: Vec<ChannelActivity>)
    ensures
        (old(categories)@.len() == 0 || prune_count == 0) ==> (pruned@.len() == 0 && final(categories)@ == old(categories)@),
        (old(categories)@.len() > 0 && prune_count > 0) ==> ({
            let last = old(categories)@.len() - 1;
            let lowest = old(categories)@[last]@;
            let k = prune_threshold(lowest.len(), capacity as nat, prune_count as nat) as int;
            &&& tier_views(final(categories)@) == tier_views(old(categories)@).update(
                last,
                lowest.take(k),
            )
            &&& pruned@ == lowest.skip(k)
        }),
{
    if categories.len() == 0 || prune_count == 0 {
        return Vec::new();
    }
    let threshold: usize = capacity.saturating_sub(prune_count);
    let lowest_idx: usize = categories.len() - 1;
    let lowest = copy_tier(&categories[lowest_idx]);
    let k: usize = if threshold <= lowest.len() {
        threshold
    } else {
        lowest.len()
    };
    let retained = copy_range(&lowest, 0, k);
    let pruned = copy_range(&lowest, k, lowest.len());
    let ghost before = tier_views(categories@);
    categories.set(lowest_idx, retained);
    proof {
        assert(lowest@.subrange(0, k as int) =~= lowest@.take(k as int));
        assert(lowest@.subrange(k as int, lowest@.len() as int) =~= lowest@.skip(k as int));
        assert(tier_views(categories@) =~= before.update(lowest_idx as int, lowest@.take(
            k as int,
        )));
    }
    pruned
}


/// The tiers of one guild: `tiers[i]` holds the channels under the `i`-th
/// managed text category.
#[derive(Debug, Clone, PartialEq, Eq)]
pub struct GuildTiers {
    pub guild_id: u64,
    pub tiers: Vec<Vec<ChannelActivity>>,
}

/// Position of the first category equal to `parent`, or -1.
pub open spec fn category_index(categories: Seq<u64>, parent: Option<u64>) -> int
    decreases categories.len(),
{
    if categories.len() == 0 {
        -1
    } else if Some(categories[0]) == parent {
        0
    } else {
        let k = category_index(categories.drop_first(), parent);
        if k < 0 {
            -1
        } else {
            k + 1
        }
    }
}

/// Position of the first group of guild `g`, or -1.
pub open spec fn guild_index(groups: Seq<(u64, Seq<Seq<ChannelActivity>>)>, g: u64) -> int
    decreases groups.len(),
{
    if groups.len() == 0 {
        -1
    } else if groups[0].0 == g {
        0
    } else {
        let k = guild_index(groups.drop_first(), g);
        if k < 0 {
            -1
        } else {
            k + 1
        }
    }
}

/// `n` empty tiers.
pub open spec fn empty_tiers(n: nat) -> Seq<Seq<ChannelActivity>> {
    Seq::new(n, |i: int| Seq::<ChannelActivity>::empty())
}

/// The groups after filing `a` under its guild and the tier of its category
/// (channels outside every managed category are left out).
pub open spec fn add_activity(
    groups: Seq<(u64, Seq<Seq<ChannelActivity>>)>,
    categories: Seq<u64>,
    a: ChannelActivity,
) -> Seq<(u64, Seq<Seq<ChannelActivity>>)> {
    let t = category_index(categories, a.parent_id);
    if t < 0 {
        groups
    } else {
        let g = guild_index(groups, a.guild_id);
        if g < 0 {
            groups.push((a.guild_id, empty_tiers(categories.len()).update(t, seq![a])))
        } else {
            groups.update(g, (a.guild_id, groups[g].1.update(t, groups[g].1[t].push(a))))
        }
    }
}

/// Activities grouped by guild (in order of first appearance) and by tier.
pub open spec fn grouped(categories: Seq<u64>, acts: Seq<ChannelActivity>) -> Seq<
    (u64, Seq<Seq<ChannelActivity>>),
>
    decreases acts.len(),
{
    if acts.len() == 0 {
        Seq::empty()
    } else {
        add_activity(grouped(categories, acts.drop_last()), categories, acts.last())
    }
}

/// Each group as its guild id and the views of its tiers.
pub open spec fn group_views(v: Seq<GuildTiers>) -> Seq<(u64, Seq<Seq<ChannelActivity>>)> {
    v.map_values(|g: GuildTiers| (g.guild_id, tier_views(g.tiers@)))
}

proof fn lemma_grouped_shape(categories: Seq<u64>, acts: Seq<ChannelActivity>)
    ensures
        forall|i: int|
            0 <= i < grouped(categories, acts).len() ==> #[trigger] grouped(
                categories,
                acts,
            )[i].1.len() == categories.len(),
    decreases acts.len(),
{
    if acts.len() > 0 {
        lemma_grouped_shape(categories, acts.drop_last());
        lemma_category_index_bounds(categories, acts.last().parent_id);
        lemma_guild_index_bounds(grouped(categories, acts.drop_last()), acts.last().guild_id);
    }
}

proof fn lemma_category_index_bounds(categories: Seq<u64>, parent: Option<u64>)
    ensures
        -1 <= category_index(categories, parent) < categories.len(),
        category_index(categories, parent) >= 0 ==> Some(
            categories[category_index(categories, parent)],
        ) == parent,
    decreases categories.len(),
{
    if categories.len() > 0 {
        lemma_category_index_bounds(categories.drop_first(), parent);
    }
}

proof fn lemma_guild_index_bounds(groups: Seq<(u64, Seq<Seq<ChannelActivity>>)>, g: u64)
    ensures
        -1 <= guild_index(groups, g) < groups.len(),
        guild_index(groups, g) >= 0 ==> groups[guild_index(groups, g)].0 == g,
    decreases groups.len(),
{
    if groups.len() > 0 {
        lemma_guild_index_bounds(groups.drop_first(), g);
    }
}

fn find_category(categories: &Vec<u64>, parent: Option<u64>) -> (r: Option<usize>)
    ensures
        match r {
            Some(i) => category_index(categories@, parent) == i,
            None => category_index(categories@, parent) < 0,
        },
{
    let mut i: usize = 0;
    assert(categories@.skip(0) =~= categories@);
    while i < categories.len()
        invariant
            i <= categories@.len(),
            category_index(categories@, parent) == if category_index(
                categories@.skip(i as int),
                parent,
            ) < 0 {
                -1
            } else {
                i + category_index(categories@.skip(i as int), parent)
            },
        decreases categories.len() - i,
    {
        proof {
            assert(categories@.skip(i as int).drop_first() =~= categories@.skip(i + 1));
        }
        match parent {
            Some(p) => {
                if categories[i] == p {
                    return Some(i);
                }
            },
            None => {},
        }
        i += 1;
    }
    proof {
        assert(categories@.skip(i as int) =~= Seq::<u64>::empty());
    }
    None
}

fn find_guild(groups: &Vec<GuildTiers>, g: u64) -> (r: Option<usize>)
    ensures
        match r {
            Some(i) => guild_index(group_views(groups@), g) == i,
            None => guild_index(group_views(groups@), g) < 0,
        },
{
    let mut i: usize = 0;
    let ghost gv = group_views(groups@);
    assert(gv.skip(0) =~= gv);
    while i < groups.len()
        invariant
            i <= groups@.len(),
            gv == group_views(groups@),
            guild_index(gv, g) == if guild_index(gv.skip(i as int), g) < 0 {
                -1
            } else {
                i + guild_index(gv.skip(i as int), g)
            },
        decreases groups.len() - i,
    {
        proof {
            assert(gv.skip(i as int).drop_first() =~= gv.skip(i + 1));
        }
        if groups[i].guild_id == g {
            return Some(i);
        }
        i += 1;
    }
    proof {
        assert(gv.skip(i as int) =~= Seq::<(u64, Seq<Seq<ChannelActivity>>)>::empty());
    }
    None
}

/// Files each activity under its guild and the tier of its category.
pub fn group_by_guild(categories: &Vec<u64>, activities: &Vec<ChannelActivity>) -> (groups: Vec<
    GuildTiers,
>)
    ensures
        group_views(groups@) == grouped(categories@, activities@),
{
    let mut groups: Vec<GuildTiers> = Vec::new();
    let mut i: usize = 0;
    while i < activities.len()
        invariant
            i <= activities@.len(),
            group_views(groups@) == grouped(categories@, activities@.take(i as int)),
        decreases activities.len() - i,
    {
        let a = activities[i];
        proof {
            assert(activities@.take(i + 1).drop_last() =~= activities@.take(i as int));
            lemma_grouped_shape(categories@, activities@.take(i as int));
            lemma_category_index_bounds(categories@, a.parent_id);
        }
        match find_category(categories, a.parent_id) {
            None => {},
            Some(t) => {
                match find_guild(&groups, a.guild_id) {
                    None => {
                        let mut tiers: Vec<Vec<ChannelActivity>> = Vec::new();
                        let mut k: usize = 0;
                        while k < categories.len()
                            invariant
                                k <= categories@.len(),
                                t < categories@.len(),
                                tier_views(tiers@) == empty_tiers(categories@.len()).update(
                                    t as int,
                                    seq![a],
                                ).take(k as int),
                            decreases categories.len() - k,
                        {
                            let mut tier: Vec<ChannelActivity> = Vec::new();
                            if k == t {
                                tier.push(a);
                            }
                            proof {
                                assert(tier_views(tiers@.push(tier)) =~= tier_views(tiers@).push(
                                    tier@,
                                ));
                                assert(empty_tiers(categories@.len()).update(t as int, seq![a]).take(
                                    k + 1,
                                ) =~= empty_tiers(categories@.len()).update(t as int, seq![a]).take(
                                    k as int,
                                ).push(tier@));
                            }
                            tiers.push(tier);
                            k += 1;
                        }
                        proof {
                            assert(empty_tiers(categories@.len()).update(t as int, seq![a]).take(
                                categories@.len() as int,
                            ) =~= empty_tiers(categories@.len()).update(t as int, seq![a]));
                        }
                        let ghost before = group_views(groups@);
                        groups.push(GuildTiers { guild_id: a.guild_id, tiers });
                        proof {
                            assert(group_views(groups@) =~= before.push(
                                (a.guild_id, empty_tiers(categories@.len()).update(t as int, seq![a])),
                            ));
                        }
                    },
                    Some(g) => {
                        let ghost before = group_views(groups@);
                        proof {
                            lemma_guild_index_bounds(before, a.guild_id);
                        }
                        let mut group = groups.remove(g);
                        proof {
                            assert(before[g as int] == (group.guild_id, tier_views(group.tiers@)));
                            assert(grouped(categories@, activities@.take(i as int))[g as int].1.len()
                                == categories@.len());
                            assert(tier_views(group.tiers@).len() == group.tiers@.len());
                            assert(t < group.tiers@.len());
                        }
                        let mut tier = group.tiers.remove(t);
                        tier.push(a);
                        let ghost tier_view = tier@;
                        group.tiers.insert(t, tier);
                        proof {
                            assert(tier_views(group.tiers@) =~= before[g as int].1.update(
                                t as int,
                                tier_view,
                            ));
                        }
                        groups.insert(g, group);
                        proof {
                            assert(group_views(groups@) =~= before.update(
                                g as int,
                                (a.guild_id, before[g as int].1.update(t as int, tier_view)),
                            ));
                        }
                    },
                }
            },
        }
        i += 1;
    }
    assert(activities@.take(activities@.len() as int) =~= activities@);
    groups
}


/// Each tier sorted by score.
pub open spec fn sort_tiers(t: Seq<Seq<ChannelActivity>>) -> Seq<Seq<ChannelActivity>> {
    t.map_values(|x: Seq<ChannelActivity>| sorted_by_score(x))
}

/// The tiers and the pruned channels after `prune_lowest_category`.
pub open spec fn pruned(cats: Seq<Seq<ChannelActivity>>, capacity: nat, prune_count: nat) -> (Seq<
    Seq<ChannelActivity>,
>, Seq<ChannelActivity>) {
    if cats.len() == 0 || prune_count == 0 {
        (cats, Seq::empty())
    } else {
        let last = cats.len() - 1;
        let k = prune_threshold(cats[last].len(), capacity, prune_count) as int;
        (cats.update(last, cats[last].take(k)), cats[last].skip(k))
    }
}

/// A guild's tiers after sorting, swapping and pruning, with the channels to delete.
pub open spec fn planned(
    tiers: Seq<Seq<ChannelActivity>>,
    capacity: nat,
    swap_count: nat,
    prune_count: nat,
) -> (Seq<Seq<ChannelActivity>>, Seq<ChannelActivity>) {
    pruned(swapped(sort_tiers(tiers), capacity, swap_count), capacity, prune_count)
}

/// What one guild's tiers become, and which of its channels are pruned.
#[derive(Debug, Clone, PartialEq, Eq)]
pub struct GuildPlan {
    pub guild_id: u64,
    pub tiers: Vec<Vec<ChannelActivity>>,
    pub deletions: Vec<ChannelActivity>,
}

/// Per guild (in order of first appearance): sorts each tier, swaps between
/// adjacent tiers and prunes the lowest one. Nothing happens without
/// managed categories.
pub fn plan_text_category_transitions(
    categories: &Vec<u64>,
    activities: &Vec<ChannelActivity>,
    capacity: usize,
    swap_count: usize,
    prune_count: usize,
) -> (plans: Vec<GuildPlan>)
    ensures
        categories@.len() == 0 ==> plans@.len() == 0,
        categories@.len() > 0 ==> plans@.len() == grouped(categories@, activities@).len(),
        categories@.len() > 0 ==> forall|i: int|
            0 <= i < plans@.len() ==> #[trigger] plans@[i].guild_id == grouped(
                categories@,
                activities@,
            )[i].0 && (tier_views(plans@[i].tiers@), plans@[i].deletions@) == planned(
                grouped(categories@, activities@)[i].1,
                capacity as nat,
                swap_count as nat,
                prune_count as nat,
            ),
{
    let mut plans: Vec<GuildPlan> = Vec::new();
    if categories.len() == 0 {
        return plans;
    }
    let groups = group_by_guild(categories, activities);
    let ghost gv = grouped(categories@, activities@);
    let mut i: usize = 0;
    while i < groups.len()
        invariant
            i <= groups@.len(),
            group_views(groups@) == gv,
            gv == grouped(categories@, activities@),
            plans@.len() == i,
            forall|j: int|
                0 <= j < i ==> #[trigger] plans@[j].guild_id == gv[j].0 && (
                    tier_views(plans@[j].tiers@),
                    plans@[j].deletions@,
                ) == planned(gv[j].1, capacity as nat, swap_count as nat, prune_count as nat),
        decreases groups.len() - i,
    {
        let mut tiers: Vec<Vec<ChannelActivity>> = Vec::new();
        let n: usize = groups[i].tiers.len();
        let ghost src = tier_views(groups@[i as int].tiers@);
        let mut k: usize = 0;
        while k < n
            invariant
                k <= n,
                i < groups@.len(),
                n == groups@[i as int].tiers@.len(),
                src == tier_views(groups@[i as int].tiers@),
                tier_views(tiers@) == sort_tiers(src).take(k as int),
            decreases n - k,
        {
            let mut tier = copy_tier(&groups[i].tiers[k]);
            sort_by_score_desc(&mut tier);
            proof {
                assert(tier_views(tiers@.push(tier)) =~= tier_views(tiers@).push(tier@));
                assert(sort_tiers(src).take(k + 1) =~= sort_tiers(src).take(k as int).push(
                    sorted_by_score(src[k as int]),
                ));
            }
            tiers.push(tier);
            k += 1;
        }
        assert(sort_tiers(src).take(n as int) =~= sort_tiers(src));
        apply_swaps(&mut tiers, capacity, swap_count);
        let deletions = prune_lowest_category(&mut tiers, capacity, prune_count);
        proof {
            assert(src == gv[i as int].1);
        }
        plans.push(GuildPlan { guild_id: groups[i].guild_id, tiers, deletions });
        i += 1;
    }
    plans
}

/// The channel ids in `t` whose parent is not `category`.
pub open spec fn misplaced_ids(t: Seq<ChannelActivity>, category: u64) -> Seq<u64>
    decreases t.len(),
{
    if t.len() == 0 {
        Seq::empty()
    } else if t.last().parent_id != Some(category) {
        misplaced_ids(t.drop_last(), category).push(t.last().channel_id)
    } else {
        misplaced_ids(t.drop_last(), category)
    }
}

/// What one managed category must hold: the channels to move into it, and
/// the position of every channel of its tier.
#[derive(Debug, Clone, PartialEq, Eq)]
pub struct CategoryLayout {
    pub category_id: u64,
    pub moves: Vec<u64>,
    pub positions: Vec<(u64, u64)>,
}

/// For each category that has a tier: the channels of the tier that sit
/// elsewhere, and positions 0, 1, ... in tier order.
pub fn category_order_plan(categories: &Vec<u64>, tiers: &Vec<Vec<ChannelActivity>>) -> (layout:
    Vec<CategoryLayout>)
    ensures
        layout@.len() == min_nat(categories@.len(), tiers@.len()),
        forall|i: int|
            0 <= i < layout@.len() ==> {
                &&& #[trigger] layout@[i].category_id == categories@[i]
                &&& layout@[i].moves@ == misplaced_ids(tiers@[i]@, categories@[i])
                &&& layout@[i].positions@ == Seq::new(
                    tiers@[i]@.len(),
                    |j: int| (tiers@[i]@[j].channel_id, j as u64),
                )
            },
{
    let mut layout: Vec<CategoryLayout> = Vec::new();
    let mut i: usize = 0;
    while i < categories.len() && i < tiers.len()
        invariant
            i <= categories@.len(),
            i <= tiers@.len(),
            layout@.len() == i,
            forall|j: int|
                0 <= j < i ==> {
                    &&& #[trigger] layout@[j].category_id == categories@[j]
                    &&& layout@[j].moves@ == misplaced_ids(tiers@[j]@, categories@[j])
                    &&& layout@[j].positions@ == Seq::new(
                        tiers@[j]@.len(),
                        |k: int| (tiers@[j]@[k].channel_id, k as u64),
                    )
                },
        decreases categories.len() - i,
    {
        let category_id = categories[i];
        let tier = &tiers[i];
        let mut moves: Vec<u64> = Vec::new();
        let mut positions: Vec<(u64, u64)> = Vec::new();
        let mut k: usize = 0;
        while k < tier.len()
            invariant
                k <= tier@.len(),
                moves@ == misplaced_ids(tier@.take(k as int), category_id),
                positions@ == Seq::new(k as nat, |j: int| (tier@[j].channel_id, j as u64)),
            decreases tier.len() - k,
        {
            proof {
                assert(tier@.take(k + 1).drop_last() =~= tier@.take(k as int));
            }
            let a = tier[k];
            let misplaced = match a.parent_id {
                Some(p) => p != category_id,
                None => true,
            };
            if misplaced {
                moves.push(a.channel_id);
            }
            positions.push((a.channel_id, k as u64));
            proof {
                assert(positions@ =~= Seq::new((k + 1) as nat, |j: int| (tier@[j].channel_id, j as u64)));
            }
            k += 1;
        }
        assert(tier@.take(tier@.len() as int) =~= tier@);
        assert(positions@ =~= Seq::new(
            tiers@[i as int]@.len(),
            |j: int| (tiers@[i as int]@[j].channel_id, j as u64),
        ));
        layout.push(CategoryLayout { category_id, moves, positions });
        i += 1;
    }
    layout
}


/// Every entry may stand before every later one.
pub open spec fn is_sorted_by_score(s: Seq<ChannelActivity>) -> bool {
    forall|i: int, j: int| 0 <= i < j < s.len() ==> precedes(#[trigger] s[i], #[trigger] s[j])
}

proof fn lemma_insert_pos(s: Seq<ChannelActivity>, x: ChannelActivity)
    ensures
        insert_pos(s, x) <= s.len(),
        forall|i: int| 0 <= i < insert_pos(s, x) ==> precedes(#[trigger] s[i], x),
        insert_pos(s, x) < s.len() ==> !precedes(s[insert_pos(s, x) as int], x),
    decreases s.len(),
{
    if s.len() > 0 && precedes(s[0], x) {
        lemma_insert_pos(s.drop_first(), x);
        assert forall|i: int| 0 <= i < insert_pos(s, x) implies precedes(#[trigger] s[i], x) by {
            if i > 0 {
                assert(s[i] == s.drop_first()[i - 1]);
            }
        }
    }
}

proof fn lemma_insert_sorted(s: Seq<ChannelActivity>, x: ChannelActivity)
    requires
        is_sorted_by_score(s),
    ensures
        is_sorted_by_score(insert_sorted(s, x)),
        insert_sorted(s, x) == s.insert(insert_pos(s, x) as int, x),
{
    lemma_insert_pos(s, x);
    let p = insert_pos(s, x) as int;
    let r = insert_sorted(s, x);
    assert(r =~= s.insert(p, x));
    assert forall|i: int, j: int| 0 <= i < j < r.len() implies precedes(
        #[trigger] r[i],
        #[trigger] r[j],
    ) by {
        if j < p {
            assert(r[i] == s[i] && r[j] == s[j]);
        } else if j == p {
            assert(r[i] == s[i]);
        } else if i == p {
            assert(r[j] == s[j - 1]);
            assert(!precedes(s[p], x));
            assert(precedes(s[p], s[j - 1]) || p == j - 1);
        } else if i < p {
            assert(r[i] == s[i] && r[j] == s[j - 1]);
        } else {
            assert(r[i] == s[i - 1] && r[j] == s[j - 1]);
        }
    }
}

/// Sorting by score yields entries in score order: each entry may stand
/// before every later one.
pub proof fn law_sort_orders(s: Seq<ChannelActivity>)
    ensures
        is_sorted_by_score(sorted_by_score(s)),
    decreases s.len(),
{
    if s.len() > 0 {
        law_sort_orders(s.drop_last());
        lemma_insert_sorted(sorted_by_score(s.drop_last()), s.last());
    }
}

/// Sorting by score loses and adds nothing: the result is a permutation.
pub proof fn law_sort_permutes(s: Seq<ChannelActivity>)
    ensures
        sorted_by_score(s).to_multiset() == s.to_multiset(),
    decreases s.len(),
{
    broadcast use vstd::seq_lib::group_to_multiset_ensures;

    if s.len() > 0 {
        let prev = s.drop_last();
        law_sort_permutes(prev);
        law_sort_orders(prev);
        lemma_insert_pos(sorted_by_score(prev), s.last());
        lemma_insert_sorted(sorted_by_score(prev), s.last());
        assert(s =~= prev.push(s.last()));
    }
}

/// Pruning keeps the head of the lowest tier and hands back its tail: the
/// two put together are the tier as it was, and the head holds at most
/// `capacity - prune_count` channels. Other tiers are untouched.
pub proof fn law_prune_splits_lowest(
    cats: Seq<Seq<ChannelActivity>>,
    capacity: nat,
    prune_count: nat,
)
    requires
        cats.len() > 0,
        prune_count > 0,
    ensures
        ({
            let (kept, gone) = pruned(cats, capacity, prune_count);
            let last = cats.len() - 1;
            &&& kept.len() == cats.len()
            &&& kept[last] + gone == cats[last]
            &&& kept[last].len() <= saturating_sub(capacity, prune_count)
            &&& forall|i: int| 0 <= i < last ==> #[trigger] kept[i] == cats[i]
        }),
{
    let last = cats.len() - 1;
    let k = prune_threshold(cats[last].len(), capacity, prune_count) as int;
    assert(cats[last].take(k) + cats[last].skip(k) =~= cats[last]);
}


/// All tiers one after another.
pub open spec fn flat(c: Seq<Seq<ChannelActivity>>) -> Seq<ChannelActivity>
    decreases c.len(),
{
    if c.len() == 0 {
        Seq::empty()
    } else {
        flat(c.drop_last()) + c.last()
    }
}

/// No channel id occurs twice among the entries counted in `m`.
pub open spec fn ids_distinct(m: Multiset<ChannelActivity>) -> bool {
    forall|a: ChannelActivity, b: ChannelActivity|
        #![trigger m.count(a), m.count(b)]
        m.count(a) > 0 && m.count(b) > 0 && a.channel_id == b.channel_id ==> a == b && m.count(a)
            == 1
}

/// No channel id occurs at two positions of `s`.
pub open spec fn ids_distinct_at(s: Seq<ChannelActivity>) -> bool {
    forall|i: int, j: int|
        0 <= i < s.len() && 0 <= j < s.len() && i != j ==> #[trigger] s[i].channel_id
            != #[trigger] s[j].channel_id
}

proof fn lemma_distinct_positions(s: Seq<ChannelActivity>)
    requires
        ids_distinct(s.to_multiset()),
    ensures
        ids_distinct_at(s),
{
    broadcast use vstd::seq_lib::group_to_multiset_ensures;
    broadcast use vstd::multiset::group_multiset_axioms;

    assert forall|i: int, j: int|
        0 <= i < s.len() && 0 <= j < s.len() && i != j implies #[trigger] s[i].channel_id
        != #[trigger] s[j].channel_id by {
        if s[i].channel_id == s[j].channel_id {
            let m = s.to_multiset();
            assert(s.contains(s[i]));
            assert(s.contains(s[j]));
            assert(m.count(s[i]) > 0 && m.count(s[j]) > 0);
            assert(s[i] == s[j]);
            let r = s.remove(i);
            let k = if j < i {
                j
            } else {
                j - 1
            };
            assert(r[k] == s[j]);
            assert(r.contains(s[i]));
            assert(r.to_multiset().count(s[i]) > 0);
            assert(r.to_multiset() == m.remove(s[i]));
            assert(m.count(s[i]) >= 2);
        }
    }
}

proof fn lemma_without_prefix(s: Seq<ChannelActivity>, ids: Seq<ChannelActivity>, a: int)
    requires
        0 <= a <= s.len(),
        forall|i: int| 0 <= i < a ==> !has_channel(ids, #[trigger] s[i].channel_id),
        forall|i: int| a <= i < s.len() ==> has_channel(ids, #[trigger] s[i].channel_id),
    ensures
        without_channels_of(s, ids) == s.take(a),
    decreases s.len(),
{
    if s.len() > 0 {
        let n = s.len() - 1;
        if n >= a {
            assert(has_channel(ids, s[n].channel_id));
            lemma_without_prefix(s.drop_last(), ids, a);
            assert(s.drop_last().take(a) =~= s.take(a));
        } else {
            assert(!has_channel(ids, s[n].channel_id));
            lemma_without_prefix(s.drop_last(), ids, n);
            assert(s.drop_last().take(n) =~= s.drop_last());
            assert(s.drop_last().push(s.last()) =~= s.take(a));
        }
    } else {
        assert(s.take(a) =~= s);
    }
}

proof fn lemma_without_suffix(s: Seq<ChannelActivity>, ids: Seq<ChannelActivity>, b: int)
    requires
        0 <= b <= s.len(),
        forall|i: int| 0 <= i < b ==> has_channel(ids, #[trigger] s[i].channel_id),
        forall|i: int| b <= i < s.len() ==> !has_channel(ids, #[trigger] s[i].channel_id),
    ensures
        without_channels_of(s, ids) == s.skip(b),
    decreases s.len(),
{
    if s.len() > 0 {
        let n = s.len() - 1;
        if n >= b {
            assert(!has_channel(ids, s[n].channel_id));
            lemma_without_suffix(s.drop_last(), ids, b);
            assert(s.drop_last().skip(b).push(s.last()) =~= s.skip(b));
        } else {
            assert(has_channel(ids, s[n].channel_id));
            lemma_without_suffix(s.drop_last(), ids, n);
            assert(s.drop_last().skip(n) =~= Seq::<ChannelActivity>::empty());
            assert(s.skip(b) =~= Seq::<ChannelActivity>::empty());
        }
    } else {
        assert(s.skip(b) =~= s);
    }
}

/// One swap between two tiers whose channel ids are all distinct moves
/// channels between them without losing or duplicating any.
pub proof fn law_swap_pair_keeps_channels(
    higher: Seq<ChannelActivity>,
    lower: Seq<ChannelActivity>,
    capacity: nat,
    swap_count: nat,
)
    requires
        ids_distinct((higher + lower).to_multiset()),
    ensures
        ({
            let (h, l) = swap_pair(higher, lower, capacity, swap_count);
            h.to_multiset().add(l.to_multiset()) == higher.to_multiset().add(lower.to_multiset())
        }),
{
    broadcast use vstd::seq_lib::group_to_multiset_ensures;
    broadcast use vstd::multiset::group_multiset_axioms;
    broadcast use vstd::seq_lib::lemma_multiset_commutative;

    let s = higher + lower;
    lemma_distinct_positions(s);
    let a = min_nat(saturating_sub(capacity, swap_count), higher.len()) as int;
    let b = min_nat(swap_count, lower.len()) as int;
    let promotions = lower.take(b);
    let demotions = higher.skip(a);
    assert forall|i: int| 0 <= i < a implies !has_channel(demotions, #[trigger] higher[i].channel_id) by {
        if has_channel(demotions, higher[i].channel_id) {
            let k = choose|k: int| 0 <= k < demotions.len() && demotions[k].channel_id == higher[i].channel_id;
            assert(s[i] == higher[i]);
            assert(s[a + k] == demotions[k]);
        }
    }
    assert forall|i: int| a <= i < higher.len() implies has_channel(demotions, #[trigger] higher[i].channel_id) by {
        assert(demotions[i - a] == higher[i]);
    }
    lemma_without_prefix(higher, demotions, a);
    assert forall|i: int| 0 <= i < b implies has_channel(promotions, #[trigger] lower[i].channel_id) by {
        assert(promotions[i] == lower[i]);
    }
    assert forall|i: int| b <= i < lower.len() implies !has_channel(promotions, #[trigger] lower[i].channel_id) by {
        if has_channel(promotions, lower[i].channel_id) {
            let k = choose|k: int| 0 <= k < promotions.len() && promotions[k].channel_id == lower[i].channel_id;
            assert(s[higher.len() + i] == lower[i]);
            assert(s[higher.len() + k] == promotions[k]);
        }
    }
    lemma_without_suffix(lower, promotions, b);
    law_sort_permutes(higher.take(a) + promotions);
    law_sort_permutes(lower.skip(b) + demotions);
    assert(higher.take(a) + higher.skip(a) =~= higher);
    assert(lower.take(b) + lower.skip(b) =~= lower);
    let (h, l) = swap_pair(higher, lower, capacity, swap_count);
    assert(h.to_multiset().add(l.to_multiset()) =~= higher.to_multiset().add(lower.to_multiset()));
}


proof fn lemma_flat_update(c: Seq<Seq<ChannelActivity>>, i: int, x: Seq<ChannelActivity>)
    requires
        0 <= i < c.len(),
    ensures
        flat(c.update(i, x)).to_multiset().add(c[i].to_multiset()) == flat(c).to_multiset().add(
            x.to_multiset(),
        ),
    decreases c.len(),
{
    broadcast use vstd::multiset::group_multiset_axioms;
    broadcast use vstd::seq_lib::lemma_multiset_commutative;

    let u = c.update(i, x);
    let cd = c.drop_last();
    vstd::seq_lib::lemma_multiset_commutative(flat(cd), c.last());
    if i == c.len() - 1 {
        assert(u.drop_last() =~= cd);
        vstd::seq_lib::lemma_multiset_commutative(flat(cd), x);
        assert(flat(u) == flat(cd) + x);
        assert(flat(u).to_multiset().add(c[i].to_multiset()) =~= flat(c).to_multiset().add(
            x.to_multiset(),
        ));
    } else {
        lemma_flat_update(cd, i, x);
        assert(u.drop_last() =~= cd.update(i, x));
        assert(cd[i] == c[i]);
        vstd::seq_lib::lemma_multiset_commutative(flat(cd.update(i, x)), c.last());
        assert(u.last() == c.last());
        assert(flat(u) == flat(cd.update(i, x)) + c.last());
        assert(flat(c) == flat(cd) + c.last());
        let m1 = flat(cd.update(i, x)).to_multiset();
        let m2 = flat(cd).to_multiset();
        assert(m1.add(c[i].to_multiset()) == m2.add(x.to_multiset()));
        assert forall|a: ChannelActivity| #[trigger] flat(u).to_multiset().add(c[i].to_multiset()).count(a)
            == flat(c).to_multiset().add(x.to_multiset()).count(a) by {
            assert(m1.add(c[i].to_multiset()).count(a) == m2.add(x.to_multiset()).count(a));
        }
        assert(flat(u).to_multiset().add(c[i].to_multiset()) =~= flat(c).to_multiset().add(
            x.to_multiset(),
        ));
    }
}

proof fn lemma_ids_distinct_part(m: Multiset<ChannelActivity>, n: Multiset<ChannelActivity>)
    requires
        ids_distinct(m.add(n)),
    ensures
        ids_distinct(n),
{
    broadcast use vstd::multiset::group_multiset_axioms;

    assert forall|a: ChannelActivity, b: ChannelActivity|
        #![trigger n.count(a), n.count(b)]
        n.count(a) > 0 && n.count(b) > 0 && a.channel_id == b.channel_id implies a == b && n.count(
            a,
        ) == 1 by {
        assert(m.add(n).count(a) > 0 && m.add(n).count(b) > 0);
    }
}

proof fn lemma_swap_step(
    cats: Seq<Seq<ChannelActivity>>,
    tier: int,
    capacity: nat,
    swap_count: nat,
)
    requires
        0 <= tier,
        tier + 1 < cats.len(),
        ids_distinct(flat(cats).to_multiset()),
    ensures
        ({
            let (h, l) = swap_pair(cats[tier], cats[tier + 1], capacity, swap_count);
            flat(cats.update(tier, h).update(tier + 1, l)).to_multiset() == flat(
                cats,
            ).to_multiset()
        }),
{
    broadcast use vstd::multiset::group_multiset_axioms;
    broadcast use vstd::seq_lib::lemma_multiset_commutative;
    broadcast use vstd::seq_lib::group_to_multiset_ensures;

    let e = Seq::<ChannelActivity>::empty();
    let c1 = cats.update(tier, e);
    lemma_flat_update(cats, tier, e);
    lemma_flat_update(c1, tier + 1, e);
    let rest = flat(c1.update(tier + 1, e)).to_multiset();
    assert(e.to_multiset() =~= Multiset::<ChannelActivity>::empty());
    assert(c1[tier + 1] == cats[tier + 1]);
    vstd::seq_lib::lemma_multiset_commutative(cats[tier], cats[tier + 1]);
    let mc1 = flat(c1).to_multiset();
    let ma = cats[tier].to_multiset();
    let mb = cats[tier + 1].to_multiset();
    let me = e.to_multiset();
    assert(mc1.add(ma) == flat(cats).to_multiset().add(me));
    assert(rest.add(mb) == mc1.add(me));
    assert forall|v: ChannelActivity| #[trigger] flat(cats).to_multiset().count(v) == rest.add(
        (cats[tier] + cats[tier + 1]).to_multiset(),
    ).count(v) by {
        assert(mc1.add(ma).count(v) == flat(cats).to_multiset().add(me).count(v));
        assert(rest.add(mb).count(v) == mc1.add(me).count(v));
        assert(me.count(v) == 0);
    }
    assert(flat(cats).to_multiset() =~= rest.add(
        (cats[tier] + cats[tier + 1]).to_multiset(),
    ));
    lemma_ids_distinct_part(rest, (cats[tier] + cats[tier + 1]).to_multiset());
    law_swap_pair_keeps_channels(cats[tier], cats[tier + 1], capacity, swap_count);
    let (h, l) = swap_pair(cats[tier], cats[tier + 1], capacity, swap_count);
    let d1 = cats.update(tier, h);
    lemma_flat_update(cats, tier, h);
    lemma_flat_update(d1, tier + 1, l);
    assert(d1[tier + 1] == cats[tier + 1]);
    let f0 = flat(cats).to_multiset();
    vstd::seq_lib::lemma_multiset_commutative(h, l);
    vstd::seq_lib::lemma_multiset_commutative(cats[tier], cats[tier + 1]);
    let f2 = flat(d1.update(tier + 1, l)).to_multiset();
    let f1 = flat(d1).to_multiset();
    let ma = cats[tier].to_multiset();
    let mb = cats[tier + 1].to_multiset();
    assert(f1.add(ma) == f0.add(h.to_multiset()));
    assert(f2.add(mb) == f1.add(l.to_multiset()));
    assert(h.to_multiset().add(l.to_multiset()) == ma.add(mb));
    assert forall|v: ChannelActivity| #[trigger] f2.count(v) == f0.count(v) by {
        assert(f1.add(ma).count(v) == f0.add(h.to_multiset()).count(v));
        assert(f2.add(mb).count(v) == f1.add(l.to_multiset()).count(v));
        assert(h.to_multiset().add(l.to_multiset()).count(v) == ma.add(mb).count(v));
    }
    assert(f2 =~= f0);
}

proof fn lemma_swap_from_keeps_channels(
    cats: Seq<Seq<ChannelActivity>>,
    tier: nat,
    capacity: nat,
    swap_count: nat,
)
    requires
        ids_distinct(flat(cats).to_multiset()),
    ensures
        flat(swap_from(cats, tier, capacity, swap_count)).to_multiset() == flat(cats).to_multiset(),
        swap_from(cats, tier, capacity, swap_count).len() == cats.len(),
    decreases cats.len() - tier,
{
    if tier + 1 < cats.len() {
        lemma_swap_step(cats, tier as int, capacity, swap_count);
        let (h, l) = swap_pair(cats[tier as int], cats[tier + 1int], capacity, swap_count);
        lemma_swap_from_keeps_channels(
            cats.update(tier as int, h).update(tier + 1int, l),
            tier + 1,
            capacity,
            swap_count,
        );
    }
}

/// Swapping across all tiers keeps every channel exactly once: when no
/// channel id occurs twice, the channels of all tiers together are the same
/// before and after, and there are as many tiers.
pub proof fn law_swaps_keep_channels(
    cats: Seq<Seq<ChannelActivity>>,
    capacity: nat,
    swap_count: nat,
)
    requires
        ids_distinct(flat(cats).to_multiset()),
    ensures
        flat(swapped(cats, capacity, swap_count)).to_multiset() == flat(cats).to_multiset(),
        swapped(cats, capacity, swap_count).len() == cats.len(),
{
    if swap_count > 0 {
        lemma_swap_from_keeps_channels(cats, 0, capacity, swap_count);
    }
}

/// Every tier is in score order.
pub open spec fn tiers_sorted(cats: Seq<Seq<ChannelActivity>>) -> bool {
    forall|k: int| 0 <= k < cats.len() ==> is_sorted_by_score(#[trigger] cats[k])
}

proof fn lemma_swap_from_sorted(
    cats: Seq<Seq<ChannelActivity>>,
    tier: nat,
    capacity: nat,
    swap_count: nat,
)
    requires
        tiers_sorted(cats),
    ensures
        tiers_sorted(swap_from(cats, tier, capacity, swap_count)),
    decreases cats.len() - tier,
{
    if tier + 1 < cats.len() {
        let higher = cats[tier as int];
        let lower = cats[tier + 1int];
        let swap_start = saturating_sub(capacity, swap_count);
        let promotions = lower.take(min_nat(swap_count, lower.len()) as int);
        let demotions = higher.skip(min_nat(swap_start, higher.len()) as int);
        law_sort_orders(without_channels_of(higher, demotions) + promotions);
        law_sort_orders(without_channels_of(lower, promotions) + demotions);
        let (h, l) = swap_pair(higher, lower, capacity, swap_count);
        let next = cats.update(tier as int, h).update(tier + 1int, l);
        assert forall|k: int| 0 <= k < next.len() implies is_sorted_by_score(#[trigger] next[k]) by {
            if k != tier && k != tier + 1 {
                assert(next[k] == cats[k]);
            }
        }
        lemma_swap_from_sorted(next, tier + 1, capacity, swap_count);
    }
}

/// Swapping keeps every tier in score order: tiers sorted before are
/// sorted after.
pub proof fn law_swaps_keep_tiers_sorted(cats: Seq<Seq<ChannelActivity>>, capacity: nat, swap_count: nat)
    requires
        tiers_sorted(cats),
    ensures
        tiers_sorted(swapped(cats, capacity, swap_count)),
{
    if swap_count > 0 {
        lemma_swap_from_sorted(cats, 0, capacity, swap_count);
    }
}

/// Pruning acts on the lowest tier as the swaps leave it: the channels kept
/// in the lowest tier followed by the pruned ones are in score order, so no
/// pruned channel ranks above a channel left in the lowest tier, and with a
/// positive `prune_count` at most `capacity - prune_count` channels stay
/// there. Every tier of the plan is in score order.
pub proof fn law_prune_takes_the_lowest_ranked(
    tiers: Seq<Seq<ChannelActivity>>,
    capacity: nat,
    swap_count: nat,
    prune_count: nat,
)
    requires
        tiers.len() > 0,
    ensures
        ({
            let (kept, gone) = planned(tiers, capacity, swap_count, prune_count);
            let last = tiers.len() - 1;
            &&& kept.len() == tiers.len()
            &&& tiers_sorted(kept)
            &&& is_sorted_by_score(kept[last] + gone)
            &&& forall|i: int, j: int|
                0 <= i < kept[last].len() && 0 <= j < gone.len() ==> precedes(
                    #[trigger] kept[last][i],
                    #[trigger] gone[j],
                )
            &&& prune_count > 0 ==> kept[last].len() <= saturating_sub(capacity, prune_count)
        }),
{
    let sorted = sort_tiers(tiers);
    assert forall|k: int| 0 <= k < sorted.len() implies is_sorted_by_score(#[trigger] sorted[k]) by {
        law_sort_orders(tiers[k]);
    }
    law_swaps_keep_tiers_sorted(sorted, capacity, swap_count);
    let sw = swapped(sorted, capacity, swap_count);
    lemma_swapped_len(sorted, capacity, swap_count);
    let (kept, gone) = planned(tiers, capacity, swap_count, prune_count);
    let last = tiers.len() - 1;
    assert(is_sorted_by_score(sw[last]));
    if prune_count == 0 {
        assert(kept[last] + gone =~= sw[last]);
    } else {
        let k = prune_threshold(sw[last].len(), capacity, prune_count) as int;
        assert(kept[last] + gone =~= sw[last]);
        assert forall|t: int| 0 <= t < kept.len() implies is_sorted_by_score(#[trigger] kept[t]) by {
            if t != last {
                assert(kept[t] == sw[t]);
            } else {
                assert forall|a: int, b: int| 0 <= a < b < kept[t].len() implies precedes(
                    #[trigger] kept[t][a],
                    #[trigger] kept[t][b],
                ) by {
                    assert(kept[t][a] == sw[last][a] && kept[t][b] == sw[last][b]);
                }
            }
        }
    }
    let both = kept[last] + gone;
    assert forall|i: int, j: int|
        0 <= i < kept[last].len() && 0 <= j < gone.len() implies precedes(
            #[trigger] kept[last][i],
            #[trigger] gone[j],
        ) by {
        assert(both[i] == kept[last][i]);
        assert(both[kept[last].len() + j] == gone[j]);
    }
}

proof fn lemma_swap_from_len(cats: Seq<Seq<ChannelActivity>>, tier: nat, capacity: nat, swap_count: nat)
    ensures
        swap_from(cats, tier, capacity, swap_count).len() == cats.len(),
    decreases cats.len() - tier,
{
    if tier + 1 < cats.len() {
        let (h, l) = swap_pair(cats[tier as int], cats[tier + 1int], capacity, swap_count);
        lemma_swap_from_len(cats.update(tier as int, h).update(tier + 1int, l), tier + 1, capacity, swap_count);
    }
}

proof fn lemma_swapped_len(cats: Seq<Seq<ChannelActivity>>, capacity: nat, swap_count: nat)
    ensures
        swapped(cats, capacity, swap_count).len() == cats.len(),
{
    if swap_count > 0 {
        lemma_swap_from_len(cats, 0, capacity, swap_count);
    }
}

} // verus!
