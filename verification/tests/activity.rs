use kyodoku::activity::{
    apply_swaps, category_order_plan, group_by_guild, plan_text_category_transitions,
    prune_lowest_category, sort_by_score_desc, ChannelActivity,
};

fn a(guild: u64, channel: u64, parent: u64, score: u64) -> ChannelActivity {
    ChannelActivity { guild_id: guild, channel_id: channel, parent_id: Some(parent), score_key: score }
}

#[test]
fn sorts_by_score_then_channel_id() {
    let mut v = vec![a(1, 3, 9, 5), a(1, 1, 9, 7), a(1, 2, 9, 5), a(1, 4, 9, 0)];
    sort_by_score_desc(&mut v);
    let ids: Vec<u64> = v.iter().map(|x| x.channel_id).collect();
    assert_eq!(ids, vec![1, 2, 3, 4]);
}

#[test]
fn best_of_lower_tier_swaps_with_worst_of_higher() {
    let mut cats = vec![vec![a(1, 1, 10, 5), a(1, 2, 10, 1)], vec![a(1, 3, 11, 9), a(1, 4, 11, 0)]];
    apply_swaps(&mut cats, 2, 1);
    let ids: Vec<Vec<u64>> = cats.iter().map(|t| t.iter().map(|x| x.channel_id).collect()).collect();
    assert_eq!(ids, vec![vec![3, 1], vec![2, 4]]);
    let mut same = cats.clone();
    apply_swaps(&mut same, 2, 0);
    assert_eq!(same, cats);
}

#[test]
fn swaps_keep_every_channel() {
    let mut cats = vec![
        vec![a(1, 1, 10, 5), a(1, 2, 10, 4), a(1, 3, 10, 3)],
        vec![a(1, 4, 11, 8), a(1, 5, 11, 2)],
        vec![a(1, 6, 12, 9)],
    ];
    let mut before: Vec<u64> = cats.iter().flatten().map(|x| x.channel_id).collect();
    apply_swaps(&mut cats, 3, 2);
    let mut after: Vec<u64> = cats.iter().flatten().map(|x| x.channel_id).collect();
    before.sort();
    after.sort();
    assert_eq!(before, after);
}

#[test]
fn prunes_the_tail_of_the_lowest_tier() {
    let mut cats = vec![vec![a(1, 1, 10, 5)], vec![a(1, 2, 11, 4), a(1, 3, 11, 1), a(1, 4, 11, 0)]];
    let pruned = prune_lowest_category(&mut cats, 3, 2);
    assert_eq!(pruned.iter().map(|x| x.channel_id).collect::<Vec<_>>(), vec![3, 4]);
    assert_eq!(cats[1].len(), 1);
    assert_eq!(cats[0].len(), 1);
    assert!(prune_lowest_category(&mut cats, 3, 0).is_empty());
    let mut none: Vec<Vec<ChannelActivity>> = vec![];
    assert!(prune_lowest_category(&mut none, 3, 2).is_empty());
}

#[test]
fn groups_by_guild_and_tier() {
    let acts = vec![a(1, 1, 10, 5), a(2, 2, 11, 4), a(1, 3, 11, 1), a(1, 4, 99, 0)];
    let groups = group_by_guild(&vec![10, 11], &acts);
    assert_eq!(groups.len(), 2);
    assert_eq!(groups[0].guild_id, 1);
    assert_eq!(groups[0].tiers[0], vec![a(1, 1, 10, 5)]);
    assert_eq!(groups[0].tiers[1], vec![a(1, 3, 11, 1)]);
    assert_eq!(groups[1].guild_id, 2);
    assert!(groups[1].tiers[0].is_empty());
}

#[test]
fn guild_plans() {
    let acts = vec![a(1, 1, 10, 1), a(1, 2, 10, 9), a(1, 3, 11, 8), a(1, 4, 11, 0)];
    let plans = plan_text_category_transitions(&vec![10, 11], &acts, 2, 1, 1);
    assert_eq!(plans.len(), 1);
    let ids: Vec<Vec<u64>> = plans[0].tiers.iter().map(|t| t.iter().map(|x| x.channel_id).collect()).collect();
    assert_eq!(ids, vec![vec![2, 3], vec![1]]);
    assert_eq!(plans[0].deletions.iter().map(|x| x.channel_id).collect::<Vec<_>>(), vec![4]);
    assert!(plan_text_category_transitions(&vec![], &acts, 2, 1, 1).is_empty());
}

#[test]
fn category_layout() {
    let tiers = vec![vec![a(1, 5, 11, 3), a(1, 6, 10, 1)], vec![a(1, 7, 11, 0)]];
    let layout = category_order_plan(&vec![10, 11, 12], &tiers);
    assert_eq!(layout.len(), 2);
    assert_eq!(layout[0].category_id, 10);
    assert_eq!(layout[0].moves, vec![5]);
    assert_eq!(layout[0].positions, vec![(5, 0), (6, 1)]);
    assert!(layout[1].moves.is_empty());
    assert_eq!(layout[1].positions, vec![(7, 0)]);
}

#[test]
fn tiers_stay_sorted_after_swaps() {
    let mut cats = vec![
        vec![a(1, 1, 10, 9), a(1, 2, 10, 4), a(1, 3, 10, 3)],
        vec![a(1, 4, 11, 8), a(1, 5, 11, 2)],
        vec![a(1, 6, 12, 7), a(1, 7, 12, 1)],
    ];
    apply_swaps(&mut cats, 3, 2);
    for tier in &cats {
        for w in tier.windows(2) {
            assert!(w[0].score_key > w[1].score_key || (w[0].score_key == w[1].score_key && w[0].channel_id <= w[1].channel_id));
        }
    }
}
