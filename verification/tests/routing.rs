use bigtea_arch::routing::{
    dump_routing, index_totals, pool_passes, record_into, report_starts, routing_last_token,
    routing_last_token_reset, routing_table, share_of, sort_descending, LastRouting, RoutingLog,
};
use bigtea_arch::selection::{pack_choices, top_ranked};

#[test]
fn passes_are_counted_separately_and_pool_correctly() {
    let mut log = vec![Vec::new()];
    record_into(&mut log, 0, 4, &[1, 1, 2]);
    log.push(Vec::new());
    record_into(&mut log, 0, 4, &[2, 3]);

    assert_eq!(log[0][0], vec![0, 2, 1, 0], "pass 0 keeps only its own");
    assert_eq!(log[1][0], vec![0, 0, 1, 1], "pass 1 starts from zero");
    assert_eq!(pool_passes(&log)[0], vec![0, 2, 2, 1]);
}

#[test]
fn later_pass_minus_earlier_is_the_new_token() {
    let prompt = [3i32, 7, 3];
    let generated = [5i32];

    let mut log = vec![Vec::new()];
    record_into(&mut log, 0, 8, &prompt);
    log.push(Vec::new());
    record_into(&mut log, 0, 8, &prompt);
    record_into(&mut log, 0, 8, &generated);

    let delta: Vec<i64> = log[1][0]
        .iter()
        .zip(&log[0][0])
        .map(|(b, a)| i64::from(*b) - i64::from(*a))
        .collect();
    assert!(
        delta.iter().all(|d| *d >= 0),
        "a delta must never go negative"
    );
    assert_eq!(delta.iter().sum::<i64>(), generated.len() as i64);
    assert_eq!(delta[5], 1, "the delta is the generated token alone");
}

#[test]
fn pooling_tolerates_ragged_passes() {
    let mut log = vec![Vec::new()];
    record_into(&mut log, 2, 4, &[0]);
    log.push(Vec::new());
    record_into(&mut log, 0, 4, &[1]);

    let pooled = pool_passes(&log);
    assert_eq!(pooled.len(), 3);
    assert_eq!(pooled[0], vec![0, 1, 0, 0]);
    assert_eq!(pooled[2], vec![1, 0, 0, 0]);
}

#[test]
fn a_log_counts_each_pass_for_itself() {
    let mut log = RoutingLog::new();
    log.record_routing(0, 3, &[0, 2, 2]);
    log.routing_next_pass();
    log.record_routing(0, 3, &[1]);
    assert_eq!(log.passes()[0][0], vec![1, 0, 2]);
    assert_eq!(log.passes()[1][0], vec![0, 1, 0]);
}

#[test]
fn ids_outside_the_bank_are_not_counted() {
    let mut log = vec![Vec::new()];
    record_into(&mut log, 0, 2, &[-1, 0, 2, 1]);
    assert_eq!(log[0][0], vec![1, 1]);
}

#[test]
fn the_last_token_is_the_tail_of_a_batch() {
    let mut last = LastRouting::new();
    last.record_last_token(1, 2, &[1, 2, 3, 4]);
    assert_eq!(routing_last_token(&last), vec![vec![], vec![3, 4]]);
    last.record_last_token(1, 2, &[9, 8]);
    assert_eq!(routing_last_token(&last)[1], vec![9, 8]);
    routing_last_token_reset(&mut last);
    assert!(routing_last_token(&last).is_empty());
}

#[test]
fn a_dump_names_pass_layer_and_expert() {
    let log = vec![vec![vec![0, 2], vec![]], vec![vec![1, 0]]];
    let text = dump_routing(&log);
    for line in text.lines().skip(1) {
        assert_eq!(line.split(',').count(), 4, "{line}");
    }
    assert!(text.contains("0,0,1,2"));
    assert!(text.contains("1,0,0,1"));
}

#[test]
fn shares_are_of_the_hottest_experts() {
    let hist = vec![vec![1, 5, 4], vec![10, 0, 0]];
    let share = share_of(&hist, 1);
    assert_eq!((share.top, share.covered, share.total), (1, 15, 20));
    let all = share_of(&hist, 3);
    assert_eq!(all.covered, all.total);
    assert_eq!(sort_descending(&vec![3, 1, 2]), vec![3, 2, 1]);
    assert!(routing_table(&hist).iter().all(|s| s.covered <= s.total));
    assert_eq!(index_totals(&hist), vec![11, 5, 4]);
}

#[test]
fn reports_leave_hashed_layers_out_where_there_are_some() {
    assert_eq!(report_starts(10, 0), vec![0]);
    assert_eq!(report_starts(10, 3), vec![0, 3]);
}

#[test]
fn picks_are_ranked_by_key() {
    assert_eq!(top_ranked(&vec![5, 9, 1, 9], 3), vec![1, 3, 0]);
    assert_eq!(top_ranked(&vec![5], 4), vec![0]);
    assert!(top_ranked(&vec![], 2).is_empty());
}

#[test]
fn choices_are_packed_to_distinct_experts() {
    let choice = pack_choices(&[7, 3, 7, 9]);
    assert_eq!(choice.unique, vec![3, 7, 9]);
    assert_eq!(choice.compact, vec![1, 0, 1, 2]);
    assert_eq!(choice.selections, vec![1, 2, 1]);
}
