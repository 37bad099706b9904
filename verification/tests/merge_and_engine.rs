use shardfetch::engine::FetchEngine;
use shardfetch::merge::{
    merge_and_dedup, sort_by_change_desc, FetchError, FetchErrorKind, Record,
};

fn rec(code: &str, change: i64) -> Record {
    Record {
        code: code.as_bytes().to_vec(),
        name: b"name".to_vec(),
        price: 1000,
        change,
        prev_close: 1000,
        limit_up: 1100,
        limit_down: 900,
        index: 0,
    }
}

fn shard_error(shard: usize) -> FetchError {
    FetchError {
        shard,
        kind: FetchErrorKind::Network,
        message: b"request failed".to_vec(),
    }
}

fn codes(records: &[Record]) -> Vec<String> {
    records
        .iter()
        .map(|r| String::from_utf8(r.code.clone()).unwrap())
        .collect()
}

#[test]
fn failed_shard_does_not_block_the_others() {
    // five shards; the third fails
    let results = vec![
        Ok(vec![rec("600001", 10)]),
        Ok(vec![rec("600002", 20)]),
        Err(shard_error(2)),
        Ok(vec![rec("600004", 40)]),
        Ok(vec![rec("600005", 50)]),
    ];
    let (merged, success_count) = merge_and_dedup(results);
    assert_eq!(success_count, 4);
    let cs = codes(&merged);
    assert!(cs.contains(&"600001".to_string()));
    assert!(cs.contains(&"600002".to_string()));
    assert!(cs.contains(&"600004".to_string()));
    assert!(cs.contains(&"600005".to_string()));
    assert_eq!(merged.len(), 4);
}

#[test]
fn duplicate_code_across_shards_keeps_the_first_in_merge_order() {
    let mut first = rec("600000", 11);
    first.name = b"from the first shard".to_vec();
    let mut second = rec("600000", 22);
    second.name = b"from the second shard".to_vec();
    let results = vec![Ok(vec![first]), Ok(vec![second])];
    let (merged, success_count) = merge_and_dedup(results);
    assert_eq!(success_count, 2);
    assert_eq!(merged.len(), 1);
    assert_eq!(merged[0].code, b"600000".to_vec());
    assert_eq!(merged[0].name, b"from the first shard".to_vec());
    assert_eq!(merged[0].change, 11);
}

#[test]
fn records_with_empty_codes_are_dropped() {
    let results = vec![Ok(vec![rec("", 1), rec("600001", 2)])];
    let (merged, _) = merge_and_dedup(results);
    assert_eq!(codes(&merged), vec!["600001".to_string()]);
}

#[test]
fn sort_is_descending_by_change() {
    let v = vec![rec("a", 3), rec("b", -2), rec("c", 9), rec("d", 3)];
    let sorted = sort_by_change_desc(v);
    let changes: Vec<i64> = sorted.iter().map(|r| r.change).collect();
    assert_eq!(changes, vec![9, 3, 3, -2]);
}

#[test]
fn engine_full_run_with_one_failure() {
    let total = 5usize;
    let limit = 2usize;
    let mut engine = FetchEngine::new(total, limit);
    let mut pending: Vec<usize> = Vec::new();
    let mut finished = 0usize;
    let mut last_agg = 0u32;
    while finished < total {
        while let Some(shard) = engine.try_launch() {
            pending.push(shard);
        }
        // never more than the limit in flight at once
        assert!(pending.len() <= limit);
        let shard = pending.remove(0);
        last_agg = engine.report_progress(shard, 100);
        if shard == 2 {
            engine.task_finished(shard, Err(shard_error(shard)));
        } else {
            let code = format!("60000{}", shard);
            engine.task_finished(shard, Ok(vec![rec(&code, shard as i64)]));
        }
        finished += 1;
    }
    assert!(engine.is_done());
    assert_eq!(last_agg, 100);
    let result = engine.finish();
    assert_eq!(result.total, 5);
    assert_eq!(result.success_count, 4);
    assert_eq!(result.final_progress, 100);
    let cs = codes(&result.records);
    assert_eq!(
        cs,
        vec![
            "600004".to_string(),
            "600003".to_string(),
            "600001".to_string(),
            "600000".to_string()
        ]
    );
}

#[test]
fn engine_slot_is_released_when_a_task_fails_at_once() {
    let mut engine = FetchEngine::new(3, 1);
    let first = engine.try_launch();
    assert_eq!(first, Some(0));
    // the single slot is taken
    assert_eq!(engine.try_launch(), None);
    // an immediate failure gives the slot back before the next task starts
    engine.task_finished(0, Err(shard_error(0)));
    assert_eq!(engine.try_launch(), Some(1));
}

#[test]
fn a_session_with_no_shards_is_empty_and_complete() {
    let result = shardfetch::engine::empty_session_result();
    assert!(result.records.is_empty());
    assert_eq!(result.success_count, 0);
    assert_eq!(result.total, 0);
    assert_eq!(result.final_progress, 100);
}

#[test]
fn engine_with_limit_above_total_admits_everything() {
    let mut engine = FetchEngine::new(2, 10);
    assert_eq!(engine.try_launch(), Some(0));
    assert_eq!(engine.try_launch(), Some(1));
    assert_eq!(engine.try_launch(), None);
}
