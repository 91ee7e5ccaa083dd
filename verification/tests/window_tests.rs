use lkjmcrs::chunk::ProbeError;
use lkjmcrs::chunk_window::{
    accept_batch, reject_duplicate_chunks, reject_duplicate_load_chunks, reject_stale_chunks,
    same_column_set, validate_moving_pending_start, validate_moving_pending_total,
    validate_new_column, validate_scale_column, window, ScaleLoad,
};

fn phase<T>(result: Result<T, ProbeError>) -> &'static str {
    match result {
        Err(ProbeError::Phase(phase)) => phase,
        _ => "",
    }
}

#[test]
fn windows_cover_the_square_around_the_center() {
    let columns = window(1, 0, 8);
    assert_eq!(columns.len(), 289);
    assert!(columns.contains(&(-7, -8)));
    assert!(columns.contains(&(9, 8)));
    assert!(!columns.contains(&(-8, 0)));
    assert!(!columns.contains(&(10, 0)));
    let single = window(-4, 6, 0);
    assert_eq!(single, vec![(-4, 6)]);
    assert_eq!(window(0, 0, 2).len(), 25);
    assert!(window(3, 3, -1).is_empty());
    let edge = window(i32::MAX - 1, i32::MIN + 1, 1);
    assert_eq!(edge.len(), 9);
    assert!(edge.contains(&(i32::MAX, i32::MIN)));
}

#[test]
fn column_sets_ignore_order_and_repeats() {
    assert!(same_column_set(&vec![(1, 2), (3, 4)], &vec![(3, 4), (1, 2), (1, 2)]));
    assert!(!same_column_set(&vec![(1, 2)], &vec![(1, 2), (3, 4)]));
    assert!(same_column_set(&vec![], &vec![]));
}

#[test]
fn stale_and_duplicate_chunks_are_refused() {
    let expected = window(0, 0, 1);
    assert!(reject_stale_chunks(&vec![(1, 1), (-1, 0)], &expected).is_ok());
    assert_eq!(phase(reject_stale_chunks(&vec![(1, 1), (2, 0)], &expected)), "moving pending stale chunk");
    let seen = vec![(0, 0), (1, 0)];
    assert!(reject_duplicate_chunks(&seen, &vec![(0, 1)]).is_ok());
    assert_eq!(phase(reject_duplicate_chunks(&seen, &vec![(0, 1), (1, 0)])), "moving pending duplicate");
    assert_eq!(phase(reject_duplicate_load_chunks(&seen, &vec![(0, 0)])), "scale load duplicate chunk");
    assert!(reject_duplicate_load_chunks(&seen, &vec![]).is_ok());
}

#[test]
fn batches_are_taken_into_the_seen_columns() {
    let expected = window(0, 0, 1);
    let mut seen = vec![(0, 0)];
    assert!(accept_batch(&mut seen, &expected, vec![(1, 0), (1, 1), (1, 0)]).is_ok());
    assert_eq!(seen, vec![(0, 0), (1, 0), (1, 1)]);
    assert_eq!(phase(accept_batch(&mut seen, &expected, vec![(1, 1)])), "moving pending duplicate");
    assert_eq!(seen.len(), 3);
    assert_eq!(
        phase(accept_batch(&mut seen, &expected, vec![(1, 1), (5, 5)])),
        "moving pending stale chunk"
    );
    assert_eq!(seen, vec![(0, 0), (1, 0), (1, 1)]);
}

#[test]
fn a_new_column_is_five_chunks_wide() {
    assert!(validate_new_column(&vec![(3, 2), (3, 1), (3, 0), (3, -1), (3, -2)], 3).is_ok());
    assert_eq!(
        phase(validate_new_column(&vec![(3, 2), (3, 1), (3, 0), (3, -1)], 3)),
        "stream chunk positions"
    );
    assert_eq!(
        phase(validate_new_column(&vec![(3, 2), (3, 1), (3, 0), (3, -1), (3, -2), (4, 0)], 3)),
        "stream chunk positions"
    );
}

#[test]
fn scale_load_counts_follow_up_batches() {
    let initial = window(0, 0, 2);
    assert!(ScaleLoad::start(&vec![(0, 0)]).is_err());
    let mut counts = ScaleLoad::start(&initial).unwrap();
    assert_eq!(phase(counts.verdict(&initial, 100)), "scale load total chunks");
    let mut seen = initial.clone();
    let everything = window(0, 0, 8);
    let rest: Vec<(i32, i32)> = everything.iter().copied().filter(|p| !initial.contains(p)).collect();
    for (k, batch) in rest.chunks(8).enumerate() {
        assert!(counts.record(&mut seen, batch.to_vec(), 10 + k).is_ok());
    }
    assert_eq!(seen.len(), 289);
    assert_eq!(counts.followup_batches, 33);
    assert_eq!(counts.max_followup_batch, 8);
    assert_eq!(counts.max_followup_payload_bytes, 42);
    assert!(counts.verdict(&seen, 100).is_ok());
    assert_eq!(phase(counts.verdict(&seen, 41)), "scale load max payload bytes");
    assert_eq!(phase(counts.record(&mut seen, vec![(0, 0)], 1)), "scale load duplicate chunk");
    assert_eq!(seen.len(), 289);
    assert_eq!(counts.followup_batches, 34);
}

#[test]
fn scale_load_refuses_large_batches_and_silence() {
    let initial = window(0, 0, 2);
    let everything = window(0, 0, 8);
    let rest: Vec<(i32, i32)> = everything.iter().copied().filter(|p| !initial.contains(p)).collect();
    let mut seen = initial.clone();
    let mut counts = ScaleLoad::start(&initial).unwrap();
    assert!(counts.record(&mut seen, rest.clone(), 5).is_ok());
    assert_eq!(phase(counts.verdict(&seen, 100)), "scale load max batch");
    let quiet = ScaleLoad::start(&initial).unwrap();
    assert_eq!(phase(quiet.verdict(&everything, 100)), "scale load counters");
}

#[test]
fn scale_columns_are_nine_chunks_wide() {
    let column: Vec<(i32, i32)> = (-4..=4).map(|z| (5, z)).collect();
    assert!(validate_scale_column(&column, 5, "scale load column").is_ok());
    assert_eq!(phase(validate_scale_column(&column, -4, "scale unload column")), "scale unload column");
    assert_eq!(phase(validate_scale_column(&column[..8].to_vec(), 5, "scale load column")), "scale load column");
}

#[test]
fn moving_pending_checks_its_start_and_end() {
    assert!(validate_moving_pending_start(&window(0, 0, 2)).is_ok());
    assert_eq!(phase(validate_moving_pending_start(&window(0, 0, 1))), "moving pending initial");
    let expected = window(1, 0, 8);
    let mut seen = expected.clone();
    seen.reverse();
    assert!(validate_moving_pending_total(&seen, &expected).is_ok());
    seen.pop();
    assert_eq!(phase(validate_moving_pending_total(&seen, &expected)), "moving pending total");
}
