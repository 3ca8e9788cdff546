use near_store::column::DBCol;
use near_store::latency::{Latency, MAX_NANOS};
use near_store::perf::{CacheUsage, Measurements, PerfContext, PerfSample};

const QUIET: PerfSample = PerfSample {
    block_cache_hit_count: 0,
    bloom_memtable_hit_count: 0,
    bloom_memtable_miss_count: 0,
    bloom_sst_hit_count: 0,
    bloom_sst_miss_count: 0,
    block_read_count: 0,
    block_read_time: 0,
    merge_operator_time_nanos: 0,
};

#[test]
fn latencies() {
    let latency = Latency::new(2, 1_500);
    assert_eq!(latency.as_nanos(), 2_000_001_500);
    assert_eq!(latency.as_micros(), 2_000_001);
    assert_eq!(latency.plus(Latency::from_nanos(500)).as_micros(), 2_000_002);
    assert_eq!(latency.divided_by(3).as_nanos(), 666_667_166);
    assert!(!latency.is_zero());
    assert!(Latency::default().is_zero());
    assert_eq!(Latency::new(u64::MAX, 999_999_999).as_nanos(), MAX_NANOS);
    assert_eq!(Latency::new(1, 2_000_000_000).as_nanos(), 3_000_000_000);
}

#[test]
fn latencies_are_shown_as_durations() {
    for nanos in [0u64, 1, 999, 1_500, 2_000_001, 1_000_000_000, 61_000_000_001, u64::MAX] {
        assert_eq!(
            Latency::from_nanos(nanos).debug_text(),
            format!("{:?}", std::time::Duration::from_nanos(nanos))
        );
    }
    assert_eq!(Latency::from_nanos(1_500).debug_text(), "1.5\u{b5}s");
}

#[test]
fn caches_are_counted() {
    let mut usage = CacheUsage::default();
    usage.add_hits(3);
    usage.add_miss(4);
    usage.add_hits(5);
    assert_eq!(usage, CacheUsage { hits: 8, miss: 4, count: 12 });
}

#[test]
fn samples_are_tallied() {
    let mut tally = Measurements::default();
    tally.add(Latency::from_nanos(0), true);
    tally.add(Latency::from_nanos(0), false);
    tally.add(Latency::from_nanos(10), true);
    // A sample without latency is no longer counted as zero once there is a total.
    tally.add(Latency::from_nanos(0), false);
    assert_eq!(tally.samples, 4);
    assert_eq!(tally.samples_with_merge, 2);
    assert_eq!(tally.zeros, 2);
    assert_eq!(tally.total_read_block_latency.as_nanos(), 10);
    assert_eq!(tally.avg_read_block_latency().as_nanos(), 2);
}

#[test]
fn tallies_are_shown() {
    let mut tally = Measurements::default();
    tally.add(Latency::from_nanos(0), false);
    tally.add(Latency::from_nanos(3_000), false);
    assert_eq!(
        tally.debug_text(),
        "Measurements: samples: 2, total: 3\u{b5}s zeros: 1 avg: 1.5\u{b5}s\n"
    );
    assert_eq!(tally.line("a", "b"), "Measurements: samples: 2, total: a zeros: 1 avg: b\n");
}

#[test]
fn averages_count_samples_in_32_bits() {
    let tally = Measurements {
        samples: 0x1_0000_0002,
        total_read_block_latency: Latency::from_nanos(9),
        samples_with_merge: 0,
        zeros: 0,
    };
    assert_eq!(tally.avg_read_block_latency().as_nanos(), 4);
}

#[test]
fn tallies_have_room_up_to_their_limits() {
    let mut tally = Measurements::default();
    assert!(tally.has_room(Latency::new(u64::MAX, 999_999_999), true));
    tally.add(Latency::new(u64::MAX, 999_999_998), false);
    assert!(tally.has_room(Latency::from_nanos(1), false));
    assert!(!tally.has_room(Latency::from_nanos(2), false));
    tally.samples = usize::MAX;
    assert!(!tally.has_room(Latency::from_nanos(0), false));
}

#[test]
fn reads_are_recorded_per_column() {
    let mut context = PerfContext::new();
    let sample = PerfSample {
        block_cache_hit_count: 1,
        bloom_memtable_hit_count: 2,
        bloom_memtable_miss_count: 3,
        bloom_sst_hit_count: 4,
        bloom_sst_miss_count: 5,
        block_read_count: 6,
        block_read_time: 7,
        merge_operator_time_nanos: 8,
    };
    assert!(context.can_record(DBCol::State, Latency::from_nanos(100), &sample));
    context.record(DBCol::State, Latency::from_nanos(100), &sample);
    context.record(DBCol::State, Latency::from_nanos(50), &QUIET);
    context.record(DBCol::Block, Latency::from_nanos(1), &QUIET);

    let state = context.get(DBCol::State).unwrap();
    assert_eq!(state.block_cache, CacheUsage { hits: 1, miss: 0, count: 1 });
    assert_eq!(state.bloom_mem, CacheUsage { hits: 2, miss: 3, count: 5 });
    // Hits and misses of the filters of table files both count as hits.
    assert_eq!(state.bloom_sst, CacheUsage { hits: 9, miss: 0, count: 9 });
    assert_eq!(state.measurements_overall.samples, 2);
    assert_eq!(state.measurements_overall.samples_with_merge, 1);
    assert_eq!(state.measurements_overall.total_read_block_latency.as_nanos(), 150);
    let buckets: Vec<(usize, usize, u128)> = state
        .measurements_per_block_reads
        .iter()
        .map(|(blocks, m)| (*blocks, m.samples, m.total_read_block_latency.as_nanos()))
        .collect();
    assert_eq!(buckets, vec![(0, 1, 0), (6, 1, 7)]);
    assert_eq!(context.get(DBCol::Block).unwrap().measurements_overall.samples, 1);
    assert!(context.get(DBCol::BlockHeader).is_none());

    context.reset();
    assert!(context.get(DBCol::State).is_none());
}

#[test]
fn overflowing_counts_cannot_be_recorded() {
    let mut context = PerfContext::new();
    let full = PerfSample { block_cache_hit_count: u64::MAX, ..QUIET };
    assert!(context.can_record(DBCol::State, Latency::default(), &full));
    context.record(DBCol::State, Latency::default(), &full);
    let one = PerfSample { block_cache_hit_count: 1, ..QUIET };
    assert!(!context.can_record(DBCol::State, Latency::default(), &one));
    assert!(context.can_record(DBCol::State, Latency::default(), &QUIET));
    assert!(context.can_record(DBCol::Block, Latency::default(), &one));
    let both = PerfSample { bloom_sst_hit_count: u64::MAX, bloom_sst_miss_count: 1, ..QUIET };
    assert!(!context.can_record(DBCol::Block, Latency::default(), &both));
}

#[test]
fn tallies_have_as_many_samples_as_the_whole() {
    let mut context = PerfContext::new();
    for (block_read_count, merge_operator_time_nanos) in
        [(3u64, 1u64), (0, 0), (3, 9), (7, 2), (0, 5), (3, 0)]
    {
        let sample = PerfSample { block_read_count, merge_operator_time_nanos, ..QUIET };
        context.record(DBCol::State, Latency::from_nanos(1), &sample);
    }
    let state = context.get(DBCol::State).unwrap();
    let samples: Vec<usize> =
        state.measurements_per_block_reads.values().map(|m| m.samples).collect();
    assert_eq!(samples, vec![2, 3, 1]);
    assert_eq!(state.measurements_overall.samples, 6);
    let merges: Vec<usize> =
        state.measurements_per_block_reads.values().map(|m| m.samples_with_merge).collect();
    assert_eq!(merges, vec![1, 2, 1]);
    assert_eq!(state.measurements_overall.samples_with_merge, 4);
}
