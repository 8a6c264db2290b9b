use ddshow::event::{
    BatchEvent, DifferentialEvent, DropEvent, MergeEvent, MergeShortfallEvent, TraceShareEvent,
};
use ddshow::stats::{arrangement_stats, ArrangementAggregator, ArrangementStats, DifferentialLogBundle};

fn batch(time: u64, worker: usize, operator: usize, length: usize) -> DifferentialLogBundle {
    DifferentialLogBundle {
        time,
        worker,
        event: DifferentialEvent::Batch(BatchEvent { operator, length }),
    }
}

fn merge(
    time: u64,
    worker: usize,
    operator: usize,
    scale: usize,
    complete: Option<usize>,
) -> DifferentialLogBundle {
    DifferentialLogBundle {
        time,
        worker,
        event: DifferentialEvent::Merge(MergeEvent {
            operator,
            scale,
            length1: 0,
            length2: 0,
            complete,
        }),
    }
}

#[test]
fn batch_then_completed_merge_publishes_combined_record() {
    // Worker 1: Batch{operator 3, length 10} at receipt 5, then
    // Merge{operator 3, scale 2, complete Some(40)} at receipt 10.
    let mut agg = ArrangementAggregator::new();
    let first = agg.process(5, 1, &batch(5, 1, 3, 10).event);
    // A batch alone has no completed merge yet: no record published.
    assert!(first.is_empty());
    assert_eq!(agg.stats(1, 3), None);

    let second = agg.process(10, 1, &merge(10, 1, 3, 2, Some(40)).event);
    assert_eq!(second.len(), 1);
    assert_eq!(second[0].diff, 1);
    assert_eq!((second[0].worker, second[0].operator), (1, 3));

    let expected = ArrangementStats {
        max_size: 40,
        min_size: 10,
        batches: 1,
        spline_levels: vec![(10, 2, 40)],
    };
    assert_eq!(second[0].stats, expected);
    assert_eq!(agg.stats(1, 3), Some(expected));
}

#[test]
fn a_change_retracts_the_prior_record() {
    let mut agg = ArrangementAggregator::new();
    agg.process(1, 0, &merge(1, 0, 2, 1, Some(30)).event);
    let delta = agg.process(2, 0, &batch(2, 0, 2, 50).event);
    assert_eq!(delta.len(), 2);
    assert_eq!(delta[0].diff, -1);
    assert_eq!(delta[0].stats.max_size, 30);
    assert_eq!(delta[0].stats.batches, 0);
    assert_eq!(delta[1].diff, 1);
    assert_eq!(delta[1].stats.max_size, 50);
    assert_eq!(delta[1].stats.min_size, 30);
    assert_eq!(delta[1].stats.batches, 1);
}

#[test]
fn incomplete_merge_is_filtered_out_entirely() {
    let mut agg = ArrangementAggregator::new();
    let delta = agg.process(7, 0, &merge(7, 0, 1, 3, None).event);
    assert!(delta.is_empty());
    assert_eq!(agg.stats(0, 1), None);
}

#[test]
fn shortfall_drop_and_share_contribute_nothing() {
    let mut agg = ArrangementAggregator::new();
    agg.process(1, 0, &merge(1, 0, 1, 1, Some(20)).event);
    let before = agg.stats(0, 1);
    let d1 = agg.process(
        2,
        0,
        &DifferentialEvent::MergeShortfall(MergeShortfallEvent {
            operator: 1,
            scale: 1,
            shortfall: 4,
        }),
    );
    let d2 = agg.process(
        3,
        0,
        &DifferentialEvent::Drop(DropEvent {
            operator: 1,
            length: 20,
        }),
    );
    let d3 = agg.process(
        4,
        0,
        &DifferentialEvent::TraceShare(TraceShareEvent {
            operator: 1,
            diff: 1,
        }),
    );
    assert!(d1.is_empty() && d2.is_empty() && d3.is_empty());
    assert_eq!(agg.stats(0, 1), before);
}

#[test]
fn retraction_restores_the_previous_extrema() {
    // Extrema are recomputed from the live sample set, so retracting the
    // current maximum revives the one before it.
    let mut agg = ArrangementAggregator::new();
    agg.process(1, 0, &merge(1, 0, 5, 1, Some(10)).event);
    agg.insert_sample(0, 5, 80, false);
    assert_eq!(agg.stats(0, 5).expect("record").max_size, 80);

    let delta = agg.retract_sample(0, 5, 80, false);
    assert_eq!(delta.len(), 2);
    let stats = agg.stats(0, 5).expect("record");
    assert_eq!(stats.max_size, 10);
    assert_eq!(stats.min_size, 10);
}

#[test]
fn retracting_a_sample_that_is_not_live_changes_nothing() {
    let mut agg = ArrangementAggregator::new();
    agg.process(1, 0, &merge(1, 0, 5, 1, Some(10)).event);
    let before = agg.stats(0, 5);
    let delta = agg.retract_sample(0, 5, 999, false);
    assert!(delta.is_empty());
    assert_eq!(agg.stats(0, 5), before);
}

#[test]
fn retracting_the_last_sample_retracts_the_record() {
    let mut agg = ArrangementAggregator::new();
    agg.process(1, 0, &merge(1, 0, 5, 1, Some(10)).event);
    let delta = agg.retract_sample(0, 5, 10, false);
    assert_eq!(delta.len(), 1);
    assert_eq!(delta[0].diff, -1);
    assert_eq!(agg.stats(0, 5), None);
}

#[test]
fn spline_levels_preserve_duplicates() {
    // Two identical completed merges at one (key, scale) bucket yield two
    // entries, not one deduplicated entry.
    let mut agg = ArrangementAggregator::new();
    agg.process(10, 1, &merge(10, 1, 3, 2, Some(40)).event);
    agg.process(10, 1, &merge(10, 1, 3, 2, Some(40)).event);
    let stats = agg.stats(1, 3).expect("record");
    assert_eq!(stats.spline_levels, vec![(10, 2, 40), (10, 2, 40)]);
}

#[test]
fn spline_levels_count_completed_merges_across_scales() {
    let mut agg = ArrangementAggregator::new();
    agg.process(10, 0, &merge(10, 0, 1, 4, Some(8)).event);
    agg.process(11, 0, &merge(11, 0, 1, 2, Some(6)).event);
    agg.process(12, 0, &merge(12, 0, 1, 4, Some(9)).event);
    agg.process(13, 0, &merge(13, 0, 1, 2, None).event);
    let stats = agg.stats(0, 1).expect("record");
    assert_eq!(stats.spline_levels.len(), 3);
    assert_eq!(
        stats.spline_levels,
        vec![(10, 4, 8), (11, 2, 6), (12, 4, 9)]
    );
}

#[test]
fn batch_count_follows_the_live_set() {
    let mut agg = ArrangementAggregator::new();
    agg.process(1, 0, &merge(1, 0, 9, 1, Some(5)).event);
    agg.process(2, 0, &batch(2, 0, 9, 12).event);
    agg.process(3, 0, &batch(3, 0, 9, 3).event);
    assert_eq!(agg.stats(0, 9).expect("record").batches, 2);
    // Retracting a batch sample also retracts its count.
    agg.retract_sample(0, 9, 12, true);
    let stats = agg.stats(0, 9).expect("record");
    assert_eq!(stats.batches, 1);
    assert_eq!(stats.max_size, 5);
    assert_eq!(stats.min_size, 3);
}

#[test]
fn arrangement_stats_reports_final_record_per_key() {
    let records = vec![
        batch(5, 1, 3, 10),
        merge(10, 1, 3, 2, Some(40)),
        batch(6, 0, 3, 100),
        merge(8, 0, 7, 1, Some(2)),
        merge(9, 0, 7, 1, None),
    ];
    let result = arrangement_stats(&records);
    assert_eq!(result.len(), 2);

    let find = |w: usize, o: usize| {
        result
            .iter()
            .find(|entry| entry.0 == (w, o))
            .map(|entry| entry.1.clone())
    };
    assert_eq!(
        find(1, 3),
        Some(ArrangementStats {
            max_size: 40,
            min_size: 10,
            batches: 1,
            spline_levels: vec![(10, 2, 40)],
        })
    );
    assert_eq!(
        find(0, 7),
        Some(ArrangementStats {
            max_size: 2,
            min_size: 2,
            batches: 0,
            spline_levels: vec![(8, 1, 2)],
        })
    );
    // Worker 0 / operator 3 saw a batch but no completed merge: no record.
    assert_eq!(find(0, 3), None);
}

#[test]
fn reordering_arrivals_keeps_the_final_records() {
    let one = vec![
        batch(5, 1, 3, 10),
        merge(10, 1, 3, 2, Some(40)),
        merge(8, 0, 7, 1, Some(2)),
    ];
    let two = vec![
        merge(8, 0, 7, 1, Some(2)),
        batch(5, 1, 3, 10),
        merge(10, 1, 3, 2, Some(40)),
    ];
    let mut r1 = arrangement_stats(&one);
    let mut r2 = arrangement_stats(&two);
    r1.sort_by(|a, b| a.0.cmp(&b.0));
    r2.sort_by(|a, b| a.0.cmp(&b.0));
    assert_eq!(r1, r2);
}
