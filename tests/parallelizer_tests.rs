use ape_dts::model::{ColValue, RowData, RowType};
use ape_dts::parallelizer::{ParallelType, Parallelizer};

fn row(id: i32, v: &str) -> RowData {
    RowData {
        schema: "db1".to_string(),
        tb: "t".to_string(),
        row_type: RowType::Update,
        before: Some(vec![("id".to_string(), ColValue::Long(id))]),
        after: Some(vec![
            ("id".to_string(), ColValue::Long(id)),
            ("v".to_string(), ColValue::String(v.to_string())),
        ]),
        data_size: 1,
    }
}

fn hash_parallelizer(k: usize) -> Parallelizer {
    Parallelizer {
        parallel_type: ParallelType::Hash,
        parallel_size: k,
        tb_keys: vec![("db1".to_string(), "t".to_string(), vec!["id".to_string()])],
    }
}

#[test]
fn same_key_same_sinker_in_order() {
    let p = hash_parallelizer(4);
    let rows = vec![row(1, "a"), row(2, "b"), row(1, "c"), row(3, "d"), row(1, "e"), row(2, "f")];
    let buckets = p.partition_by_hash(rows.clone());
    assert_eq!(buckets.len(), 4);
    assert_eq!(buckets.iter().map(|b| b.len()).sum::<usize>(), rows.len());
    for id in 1..=3 {
        let with_id: Vec<usize> = (0..4)
            .filter(|j| buckets[*j].iter().any(|r| r.after.as_ref().unwrap()[0].1 == ColValue::Long(id)))
            .collect();
        assert_eq!(with_id.len(), 1);
        let expected: Vec<&RowData> =
            rows.iter().filter(|r| r.after.as_ref().unwrap()[0].1 == ColValue::Long(id)).collect();
        let got: Vec<&RowData> = buckets[with_id[0]]
            .iter()
            .filter(|r| r.after.as_ref().unwrap()[0].1 == ColValue::Long(id))
            .collect();
        assert_eq!(got, expected);
    }
    assert_eq!(p.hash_target_of(&rows[0]), p.hash_target_of(&rows[2]));
}

#[test]
fn single_sinker_takes_everything() {
    let p = hash_parallelizer(1);
    let rows = vec![row(1, "a"), row(2, "b")];
    let buckets = p.partition_by_hash(rows.clone());
    assert_eq!(buckets, vec![rows]);
}

#[test]
fn round_robin_equal_chunks() {
    let p = Parallelizer { parallel_type: ParallelType::RoundRobin, parallel_size: 3, tb_keys: vec![] };
    assert_eq!(p.round_robin_chunks(7), vec![(0, 3), (3, 3), (6, 1)]);
    assert_eq!(p.round_robin_chunks(6), vec![(0, 2), (2, 2), (4, 2)]);
    assert_eq!(p.round_robin_chunks(0), vec![]);
}
