use near_store::column::DBCol;
use near_store::latency::Latency;
use near_store::number::IntegerFault;
use near_store::perf::{PerfContext, PerfSample};
use near_store::report::{
    can_fill_perf_data, cf_properties, fill_cf_statistics, fill_perf_data, get_store_statistics,
    CfProperty, PropertyReading,
};
use near_store::statistics::{StatsParseError, StatsValue, StoreStatistics};

fn sample(blocks: u64, nanos: u64) -> PerfSample {
    PerfSample {
        block_cache_hit_count: 11,
        bloom_memtable_hit_count: 22,
        bloom_memtable_miss_count: 33,
        bloom_sst_hit_count: 44,
        bloom_sst_miss_count: 55,
        block_read_count: blocks,
        block_read_time: nanos,
        merge_operator_time_nanos: 0,
    }
}

fn state(v: i64) -> Vec<StatsValue> {
    vec![StatsValue::ColumnValue(DBCol::State, v)]
}

fn buckets(values: &[(&str, i64)]) -> Vec<StatsValue> {
    let bucket = |(blocks, v): &(&str, i64)| {
        StatsValue::BucketBlockCount(DBCol::State, blocks.to_string(), *v)
    };
    values.iter().map(bucket).collect()
}

fn rows(expected: Vec<(&str, Vec<StatsValue>)>) -> Vec<(String, Vec<StatsValue>)> {
    expected.into_iter().map(|(name, values)| (name.to_string(), values)).collect()
}

#[test]
fn reads_of_the_state_column_are_reported() {
    let mut context = PerfContext::new();
    context.record(DBCol::State, Latency::from_nanos(10_000), &sample(12, 4_000));
    context.record(DBCol::State, Latency::from_nanos(20_000), &sample(2, 1_000));
    context.record(DBCol::State, Latency::from_nanos(31_000), &sample(12, 5_999));
    context.record(DBCol::Block, Latency::from_nanos(1_000_000), &sample(99, 1_000_000));
    assert!(can_fill_perf_data(&context));
    let mut result = StoreStatistics { data: vec![("before".to_string(), vec![])] };
    fill_perf_data(&mut context, &mut result);
    assert_eq!(
        result.data,
        rows(vec![
            ("before", vec![]),
            // 61 microseconds over three reads
            ("rocksdb_perf_avg_read_block_latency", state(20)),
            ("rocksdb_perf_total_observed_latency_per_block", buckets(&[("2", 1), ("12", 9)])),
            ("rocksdb_perf_avg_observed_latency_per_block", buckets(&[("2", 1), ("12", 4)])),
            ("rocksdb_perf_count_per_block", buckets(&[("2", 1), ("12", 2)])),
            ("rocksdb_perf_total_lat_per_block", buckets(&[("2", 1), ("12", 9)])),
            ("rocksdb_perf_block_cache_hit", state(33)),
            ("rocksdb_perf_bloom_sst_hit", state(66)),
            ("rocksdb_perf_bloom_sst_miss", state(99)),
            ("rocksdb_perf_bloom_sst_hit", state(297)),
            ("rocksdb_perf_bloom_sst_hit", state(297)),
        ])
    );
    assert!(context.get(DBCol::State).is_none());
    assert!(context.get(DBCol::Block).is_none());
}

#[test]
fn reads_of_other_columns_are_forgotten() {
    let mut context = PerfContext::new();
    context.record(DBCol::Block, Latency::from_nanos(1), &sample(1, 1));
    let mut result = StoreStatistics { data: vec![] };
    assert!(can_fill_perf_data(&context));
    fill_perf_data(&mut context, &mut result);
    assert!(result.data.is_empty());
    assert!(context.get(DBCol::Block).is_none());
}

#[test]
fn properties_of_column_families() {
    let properties = cf_properties();
    assert_eq!(properties.len(), 17);
    assert_eq!(properties[0], CfProperty::LiveSstFilesSize);
    assert_eq!(properties[9], CfProperty::SizeAllMemTables);
    for level in 0..=6 {
        assert_eq!(properties[10 + level], CfProperty::NumFilesAtLevel(level));
    }
}

fn reading(name: &str, values: Vec<(DBCol, Option<u64>)>) -> PropertyReading {
    PropertyReading { name: name.to_string(), values }
}

#[test]
fn properties_that_nobody_gave_are_left_out() {
    let readings = vec![
        reading("a", vec![(DBCol::State, Some(1)), (DBCol::Block, None), (DBCol::Chunks, Some(2))]),
        reading("b", vec![(DBCol::State, None)]),
        reading("c", vec![]),
        reading("d", vec![(DBCol::State, Some(u64::MAX))]),
    ];
    let mut result = StoreStatistics { data: vec![] };
    fill_cf_statistics(&readings, &mut result);
    assert_eq!(
        result.data,
        rows(vec![
            (
                "a",
                vec![
                    StatsValue::ColumnValue(DBCol::State, 1),
                    StatsValue::ColumnValue(DBCol::Chunks, 2),
                ]
            ),
            ("d", state(-1)),
        ])
    );
}

#[test]
fn statistics_are_gathered_in_order() {
    let mut context = PerfContext::new();
    context.record(DBCol::State, Latency::from_nanos(5_000), &sample(0, 0));
    let readings = vec![reading("property", vec![(DBCol::State, Some(5))])];
    let (gathered, error) =
        get_store_statistics(Some("own COUNT : 3\nbad COUNT : ?\n"), &readings, &mut context);
    assert_eq!(error, Some(StatsParseError::Integer(IntegerFault::InvalidDigit)));
    let gathered = gathered.unwrap();
    assert_eq!(gathered.data.len(), 12);
    assert_eq!(gathered.data[0], ("own".to_string(), vec![StatsValue::Count(3)]));
    assert_eq!(gathered.data[1], ("property".to_string(), state(5)));
    assert_eq!(
        gathered.data[2],
        ("rocksdb_perf_avg_read_block_latency".to_string(), state(5))
    );
    assert!(context.get(DBCol::State).is_none());
}

#[test]
fn without_anything_to_report_there_are_no_statistics() {
    let mut context = PerfContext::new();
    assert_eq!(get_store_statistics(None, &vec![], &mut context), (None, None));
    let readings = vec![reading("property", vec![(DBCol::State, None)])];
    assert_eq!(get_store_statistics(Some("noise"), &readings, &mut context), (None, None));
}
