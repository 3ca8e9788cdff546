//! The statistics of the store: what the database says of itself, what it says of each column
//! family, and what was measured of reads.
use vstd::prelude::*;

use crate::column::DBCol;
use crate::number::{all_digits, decimal, decimal_string, digits_value, lemma_decimal};
use crate::perf::{
    law_reads_add_up, law_reads_add_up_per_blocks, law_tally_within_overall, measured, recorded,
    sum_of_reads, ColumnMeasurement, ColumnMeasurementView, Measurements, MeasurementsView,
    PerfContext, ReadRecord,
};
use crate::statistics::{
    parse_statistics, statistics_of, values_view, StatRow, StatView, StatsParseError, StatsValue,
    StoreStatistics,
};

verus! {

broadcast use vstd::std_specs::btree::group_btree_axioms;

/// `s` lists the members of `of` from the least to the greatest.
pub open spec fn is_ascending_list(s: Seq<usize>, of: Set<usize>) -> bool {
    &&& forall|i: int, j: int| 0 <= i < j < s.len() ==> s[i] < s[j]
    &&& s.to_set() == of
}

/// The members of `of` from the least to the greatest.
pub open spec fn ascending(of: Set<usize>) -> Seq<usize> {
    choose|s: Seq<usize>| is_ascending_list(s, of)
}

/// A set has one ascending list at most.
pub proof fn lemma_ascending_unique(s: Seq<usize>, t: Seq<usize>, of: Set<usize>)
    requires
        is_ascending_list(s, of),
        is_ascending_list(t, of),
    ensures
        s == t,
    decreases s.len(),
{
    if s.len() == 0 {
        if t.len() > 0 {
            assert(t.to_set().contains(t[0]));
            assert(s.to_set().contains(t[0]));
        }
        assert(s =~= t);
    } else {
        assert(s.to_set().contains(s.last()));
        assert(t.to_set().contains(s.last()));
        assert(t.to_set().contains(t.last()));
        assert(s.to_set().contains(t.last()));
        assert(s.last() == t.last());
        let rest = of.remove(s.last());
        lemma_ascending_without_last(s, of);
        lemma_ascending_without_last(t, of);
        lemma_ascending_unique(s.drop_last(), t.drop_last(), rest);
        assert(s =~= s.drop_last().push(s.last()));
        assert(t =~= t.drop_last().push(t.last()));
    }
}

proof fn lemma_ascending_without_last(s: Seq<usize>, of: Set<usize>)
    requires
        is_ascending_list(s, of),
        s.len() > 0,
    ensures
        is_ascending_list(s.drop_last(), of.remove(s.last())),
{
    let t = s.drop_last();
    assert forall|x: usize| t.to_set().contains(x) <==> of.remove(s.last()).contains(x) by {
        if t.to_set().contains(x) {
            let i = choose|i: int| 0 <= i < t.len() && t[i] == x;
            assert(s[i] == x);
            assert(s.to_set().contains(x));
        }
        if of.remove(s.last()).contains(x) {
            assert(s.to_set().contains(x));
            let i = choose|i: int| 0 <= i < s.len() && s[i] == x;
            assert(t[i] == x);
        }
    }
    assert(t.to_set() =~= of.remove(s.last()));
}

/// `list` is the ascending list of `of`.
pub proof fn lemma_ascending_is(list: Seq<usize>, of: Set<usize>)
    requires
        is_ascending_list(list, of),
    ensures
        ascending(of) == list,
{
    lemma_ascending_unique(ascending(of), list, of);
}

/// A number of microseconds, of `nanos` nanoseconds, in 64 bits.
pub open spec fn micros(nanos: nat) -> i64 {
    (nanos / 1000) as i64
}

/// What is reported of the reads that read a given number of blocks.
#[derive(Clone, Copy, Debug, PartialEq, Eq, Structural)]
pub enum BucketFigure {
    /// The total latency, in microseconds.
    TotalLatency,
    /// The latency per read, in microseconds.
    AverageLatency,
    /// The number of reads.
    Samples,
}

/// The figure of the tally `t`.
pub open spec fn bucket_figure(figure: BucketFigure, t: MeasurementsView) -> i64 {
    match figure {
        BucketFigure::TotalLatency => micros(t.total_nanos),
        BucketFigure::AverageLatency => micros(t.average()),
        BucketFigure::Samples => t.samples as i64,
    }
}

/// The figure of every tally of `m`, from the least number of blocks to the greatest.
pub open spec fn bucket_stats(m: ColumnMeasurementView, figure: BucketFigure) -> Seq<StatView> {
    ascending(m.per_block_reads.dom()).map_values(
        |blocks: usize|
            StatView::BucketBlockCount(
                DBCol::State,
                decimal(blocks as nat),
                bucket_figure(figure, m.per_block_reads[blocks]),
            ),
    )
}

/// One number of the state column.
pub open spec fn state_stat(v: i64) -> Seq<StatView> {
    seq![StatView::ColumnValue(DBCol::State, v)]
}

/// The statistics of the reads of the state column.
pub open spec fn perf_rows(m: ColumnMeasurementView) -> Seq<StatRow> {
    seq![
        ("rocksdb_perf_avg_read_block_latency"@, state_stat(micros(m.overall.average()))),
        (
            "rocksdb_perf_total_observed_latency_per_block"@,
            bucket_stats(m, BucketFigure::TotalLatency),
        ),
        (
            "rocksdb_perf_avg_observed_latency_per_block"@,
            bucket_stats(m, BucketFigure::AverageLatency),
        ),
        ("rocksdb_perf_count_per_block"@, bucket_stats(m, BucketFigure::Samples)),
        ("rocksdb_perf_total_lat_per_block"@, bucket_stats(m, BucketFigure::TotalLatency)),
        ("rocksdb_perf_block_cache_hit"@, state_stat(m.block_cache.hits as i64)),
        ("rocksdb_perf_bloom_sst_hit"@, state_stat(m.bloom_mem.hits as i64)),
        ("rocksdb_perf_bloom_sst_miss"@, state_stat(m.bloom_mem.miss as i64)),
        ("rocksdb_perf_bloom_sst_hit"@, state_stat(m.bloom_sst.hits as i64)),
        ("rocksdb_perf_bloom_sst_hit"@, state_stat(m.bloom_sst.hits as i64)),
    ]
}

/// The statistics of reads that `context` gives: those of the state column, where it was read.
pub open spec fn context_rows(context: Map<DBCol, ColumnMeasurementView>) -> Seq<StatRow> {
    if context.contains_key(DBCol::State) {
        perf_rows(context[DBCol::State])
    } else {
        Seq::empty()
    }
}

/// Every average that the statistics of `m` need can be taken.
pub open spec fn has_averages(m: ColumnMeasurementView) -> bool {
    &&& m.overall.has_average()
    &&& forall|blocks: usize| #[trigger]
        m.per_block_reads.contains_key(blocks) ==> m.per_block_reads[blocks].has_average()
}

/// The statistics of reads can be taken of `context`.
pub open spec fn is_reportable(context: Map<DBCol, ColumnMeasurementView>) -> bool {
    context.contains_key(DBCol::State) ==> has_averages(context[DBCol::State])
}

proof fn lemma_increasing(keys: Seq<usize>)
    requires
        vstd::std_specs::btree::increasing_seq(keys),
    ensures
        forall|i: int, j: int| 0 <= i < j < keys.len() ==> keys[i] < keys[j],
{
    broadcast use vstd::laws_cmp::group_laws_cmp;

    assert forall|i: int, j: int| 0 <= i < j < keys.len() implies keys[i] < keys[j] by {
        assert(vstd::std_specs::cmp::OrdSpec::cmp_spec(&keys[i], &keys[j]) is Less);
    }
}

fn figure_of(figure: BucketFigure, m: &Measurements) -> (r: i64)
    requires
        m@.has_average(),
    ensures
        r == bucket_figure(figure, m@),
{
    match figure {
        BucketFigure::TotalLatency => m.total_read_block_latency.as_micros() as i64,
        BucketFigure::AverageLatency => m.avg_read_block_latency().as_micros() as i64,
        BucketFigure::Samples => m.samples as i64,
    }
}

fn bucket_values(m: &ColumnMeasurement, figure: BucketFigure) -> (r: Vec<StatsValue>)
    requires
        has_averages(m@),
    ensures
        values_view(r@) == bucket_stats(m@, figure),
{
    let mut out: Vec<StatsValue> = Vec::new();
    let ghost tallies = m.measurements_per_block_reads@;
    let pairs = m.measurements_per_block_reads.iter();
    let ghost listed = vstd::std_specs::iter::IteratorSpec::remaining(&pairs);
    let ghost keys = listed.map_values(|kv: (&usize, &Measurements)| *kv.0);
    proof {
        assert forall|i: int| 0 <= i < listed.len() implies tallies.contains_key(
            *(#[trigger] listed[i]).0,
        ) && tallies[*listed[i].0] == *listed[i].1 by {}
        assert forall|k: usize| keys.to_set().contains(k) <==> tallies.contains_key(k) by {
            if keys.to_set().contains(k) {
                let i = choose|i: int| 0 <= i < keys.len() && keys[i] == k;
                assert(tallies.contains_key(*listed[i].0));
            }
            if tallies.contains_key(k) {
                assert(listed.contains((&k, &tallies[k])));
                let i = choose|i: int| 0 <= i < listed.len() && listed[i] == (&k, &tallies[k]);
                assert(keys[i] == k);
            }
        }
        assert(keys.to_set() =~= m@.per_block_reads.dom());
        lemma_increasing(keys);
        lemma_ascending_is(keys, m@.per_block_reads.dom());
    }
    for kv in it: pairs
        invariant
            has_averages(m@),
            tallies == m.measurements_per_block_reads@,
            it.seq() == listed,
            out@.len() == it.index(),
            forall|i: int|
                0 <= i < listed.len() ==> tallies.contains_key(*(#[trigger] listed[i]).0)
                    && tallies[*listed[i].0] == *listed[i].1,
            forall|i: int|
                0 <= i < out@.len() ==> (#[trigger] out@[i])@ == StatView::BucketBlockCount(
                    DBCol::State,
                    decimal(*listed[i].0 as nat),
                    bucket_figure(figure, m@.per_block_reads[*listed[i].0]),
                ),
    {
        assert(m@.per_block_reads.contains_key(*kv.0));
        out.push(
            StatsValue::BucketBlockCount(
                DBCol::State,
                decimal_string(*kv.0 as u64),
                figure_of(figure, kv.1),
            ),
        );
    }
    assert(values_view(out@) =~= bucket_stats(m@, figure));
    out
}

/// Whether the statistics of reads can be taken of `context`.
pub fn can_fill_perf_data(context: &PerfContext) -> (r: bool)
    ensures
        r == is_reportable(context@),
{
    match context.get(DBCol::State) {
        Some(m) => m.measurements_overall.samples as u32 != 0 && buckets_have_averages(m),
        None => true,
    }
}

fn buckets_have_averages(m: &ColumnMeasurement) -> (r: bool)
    ensures
        r == (forall|blocks: usize| #[trigger]
            m@.per_block_reads.contains_key(blocks) ==> m@.per_block_reads[blocks].has_average()),
{
    let ghost tallies = m.measurements_per_block_reads@;
    let pairs = m.measurements_per_block_reads.iter();
    let ghost listed = vstd::std_specs::iter::IteratorSpec::remaining(&pairs);
    assert forall|i: int| 0 <= i < listed.len() implies tallies.contains_key(
        *(#[trigger] listed[i]).0,
    ) && tallies[*listed[i].0] == *listed[i].1 by {}
    for kv in it: pairs
        invariant
            tallies == m.measurements_per_block_reads@,
            it.seq() == listed,
            forall|i: int|
                0 <= i < listed.len() ==> tallies.contains_key(*(#[trigger] listed[i]).0)
                    && tallies[*listed[i].0] == *listed[i].1,
            forall|i: int| 0 <= i < it.index() ==> (*(#[trigger] listed[i]).1)@.has_average(),
    {
        if kv.1.samples as u32 == 0 {
            assert(m@.per_block_reads.contains_key(*kv.0));
            return false;
        }
    }
    assert forall|blocks: usize| #[trigger]
        m@.per_block_reads.contains_key(blocks) implies m@.per_block_reads[blocks].has_average() by {
        assert(tallies.contains_key(blocks));
        assert(listed.contains((&blocks, &tallies[blocks])));
        let i = choose|i: int| 0 <= i < listed.len() && listed[i] == (&blocks, &tallies[blocks]);
        assert((*listed[i].1)@.has_average());
    }
    true
}

fn state_value(v: i64) -> (r: Vec<StatsValue>)
    ensures
        values_view(r@) == state_stat(v),
{
    let r = vec![StatsValue::ColumnValue(DBCol::State, v)];
    assert(values_view(r@) =~= state_stat(v));
    r
}

fn push_row(result: &mut StoreStatistics, name: &str, values: Vec<StatsValue>)
    ensures
        final(result)@ == old(result)@.push((name@, values_view(values@))),
{
    result.data.push((name.to_string(), values));
    assert(result@ =~= old(result)@.push((name@, values_view(values@))));
}

/// Fills results with what was measured of reads, and forgets it.
///
/// Only the state column is reported. The average latency is that observed by the reader; the
/// latencies per number of blocks are those of reading blocks.
pub fn fill_perf_data(context: &mut PerfContext, result: &mut StoreStatistics)
    requires
        is_reportable(old(context)@),
    ensures
        final(result)@ == old(result)@ + context_rows(old(context)@),
        final(context)@ == Map::<DBCol, ColumnMeasurementView>::empty(),
{
    match context.get(DBCol::State) {
        Some(m) => {
            // add read block latency
            push_row(
                result,
                "rocksdb_perf_avg_read_block_latency",
                state_value(m.measurements_overall.avg_read_block_latency().as_micros() as i64),
            );
            push_row(
                result,
                "rocksdb_perf_total_observed_latency_per_block",
                bucket_values(m, BucketFigure::TotalLatency),
            );
            push_row(
                result,
                "rocksdb_perf_avg_observed_latency_per_block",
                bucket_values(m, BucketFigure::AverageLatency),
            );
            push_row(
                result,
                "rocksdb_perf_count_per_block",
                bucket_values(m, BucketFigure::Samples),
            );
            push_row(
                result,
                "rocksdb_perf_total_lat_per_block",
                bucket_values(m, BucketFigure::TotalLatency),
            );
            push_row(
                result,
                "rocksdb_perf_block_cache_hit",
                state_value(m.block_cache.hits as i64),
            );
            push_row(result, "rocksdb_perf_bloom_sst_hit", state_value(m.bloom_mem.hits as i64));
            push_row(result, "rocksdb_perf_bloom_sst_miss", state_value(m.bloom_mem.miss as i64));
            push_row(result, "rocksdb_perf_bloom_sst_hit", state_value(m.bloom_sst.hits as i64));
            push_row(result, "rocksdb_perf_bloom_sst_hit", state_value(m.bloom_sst.hits as i64));
        },
        None => {},
    }
    context.reset();
    assert(result@ =~= old(result)@ + context_rows(old(context)@));
}

/// An integer property that is read of every column family.
#[derive(Clone, Copy, Debug, PartialEq, Eq, Structural)]
pub enum CfProperty {
    LiveSstFilesSize,
    EstimateLiveDataSize,
    CompactionPending,
    NumRunningCompactions,
    EstimatePendingCompactionBytes,
    EstimateTableReadersMem,
    BlockCacheCapacity,
    BlockCacheUsage,
    CurSizeActiveMemTable,
    SizeAllMemTables,
    NumFilesAtLevel(usize),
}

/// Every integer property that is read when collecting statistics, in order.
pub open spec fn property_list() -> Seq<CfProperty> {
    seq![
        CfProperty::LiveSstFilesSize,
        CfProperty::EstimateLiveDataSize,
        CfProperty::CompactionPending,
        CfProperty::NumRunningCompactions,
        CfProperty::EstimatePendingCompactionBytes,
        CfProperty::EstimateTableReadersMem,
        CfProperty::BlockCacheCapacity,
        CfProperty::BlockCacheUsage,
        CfProperty::CurSizeActiveMemTable,
        CfProperty::SizeAllMemTables,
    ] + Seq::new(7, |level: int| CfProperty::NumFilesAtLevel(level as usize))
}

/// List of integer RocksDB properties read when collecting statistics.
///
/// In the end, they are exported as Prometheus metrics.
pub fn cf_properties() -> (r: Vec<CfProperty>)
    ensures
        r@ == property_list(),
        r@ == seq![
            CfProperty::LiveSstFilesSize,
            CfProperty::EstimateLiveDataSize,
            CfProperty::CompactionPending,
            CfProperty::NumRunningCompactions,
            CfProperty::EstimatePendingCompactionBytes,
            CfProperty::EstimateTableReadersMem,
            CfProperty::BlockCacheCapacity,
            CfProperty::BlockCacheUsage,
            CfProperty::CurSizeActiveMemTable,
            CfProperty::SizeAllMemTables,
        ] + Seq::new(7, |level: int| CfProperty::NumFilesAtLevel(level as usize)),
{
    let mut ret = vec![
        CfProperty::LiveSstFilesSize,
        CfProperty::EstimateLiveDataSize,
        CfProperty::CompactionPending,
        CfProperty::NumRunningCompactions,
        CfProperty::EstimatePendingCompactionBytes,
        CfProperty::EstimateTableReadersMem,
        CfProperty::BlockCacheCapacity,
        CfProperty::BlockCacheUsage,
        CfProperty::CurSizeActiveMemTable,
        CfProperty::SizeAllMemTables,
    ];
    let ghost named = ret@;
    let mut level: usize = 0;
    while level <= 6
        invariant
            level <= 7,
            ret@ == named + Seq::new(
                level as nat,
                |level: int| CfProperty::NumFilesAtLevel(level as usize),
            ),
        decreases 7 - level,
    {
        ret.push(CfProperty::NumFilesAtLevel(level));
        level += 1;
    }
    ret
}

/// The name of a property, and its value for each column family that was asked, in order. A
/// column family that could not give the value has none.
pub struct PropertyReading {
    pub name: String,
    pub values: Vec<(DBCol, Option<u64>)>,
}

/// The values that were given.
pub open spec fn given_values(values: Seq<(DBCol, Option<u64>)>) -> Seq<StatView>
    decreases values.len(),
{
    if values.len() == 0 {
        Seq::empty()
    } else {
        let rest = given_values(values.drop_last());
        match values.last().1 {
            Some(v) => rest.push(StatView::ColumnValue(values.last().0, v as i64)),
            None => rest,
        }
    }
}

/// The statistics that `readings` give: one for each property that any column family gave.
pub open spec fn property_rows(readings: Seq<PropertyReading>) -> Seq<StatRow>
    decreases readings.len(),
{
    if readings.len() == 0 {
        Seq::empty()
    } else {
        let rest = property_rows(readings.drop_last());
        let values = given_values(readings.last().values@);
        if values.len() == 0 {
            rest
        } else {
            rest.push((readings.last().name@, values))
        }
    }
}

fn column_values(values: &Vec<(DBCol, Option<u64>)>) -> (r: Vec<StatsValue>)
    ensures
        values_view(r@) == given_values(values@),
{
    let mut out: Vec<StatsValue> = Vec::new();
    let mut i: usize = 0;
    assert(values_view(out@) =~= given_values(values@.take(0)));
    while i < values.len()
        invariant
            i <= values.len(),
            values_view(out@) == given_values(values@.take(i as int)),
        decreases values.len() - i,
    {
        let ghost before = values_view(out@);
        assert(values@.take(i + 1).drop_last() =~= values@.take(i as int));
        let (col, value) = values[i];
        match value {
            Some(v) => {
                out.push(StatsValue::ColumnValue(col, v as i64));
                assert(values_view(out@) =~= before.push(StatView::ColumnValue(col, v as i64)));
            },
            None => {},
        }
        i += 1;
    }
    assert(values@.take(i as int) =~= values@);
    out
}

/// Adds the properties that were read of the column families.
pub fn fill_cf_statistics(readings: &Vec<PropertyReading>, result: &mut StoreStatistics)
    ensures
        final(result)@ == old(result)@ + property_rows(readings@),
{
    let mut i: usize = 0;
    assert(result@ =~= old(result)@ + property_rows(readings@.take(0)));
    while i < readings.len()
        invariant
            i <= readings.len(),
            result@ == old(result)@ + property_rows(readings@.take(i as int)),
        decreases readings.len() - i,
    {
        let ghost before = result@;
        let ghost rows = property_rows(readings@.take(i as int));
        assert(readings@.take(i + 1).drop_last() =~= readings@.take(i as int));
        let values = column_values(&readings[i].values);
        if values.len() > 0 {
            let ghost row = (readings@[i as int].name@, values_view(values@));
            push_row(result, readings[i].name.as_str(), values);
            assert(before.push(row) =~= old(result)@ + rows.push(row));
        }
        i += 1;
    }
    assert(readings@.take(i as int) =~= readings@);
}

/// The rows and the error that the text of the database's own statistics gives, where there is
/// such a text.
pub open spec fn own_statistics(text: Option<Seq<char>>) -> (Seq<StatRow>, Option<StatsParseError>) {
    match text {
        Some(text) => statistics_of(text),
        None => (Seq::empty(), None),
    }
}

/// Gathers
/// 1. the statistics that the database keeps itself, where it keeps any
/// 2. the properties that were read of column families
/// 3. what was measured of reads, which is then forgotten
///
/// Gives no statistics where there are none. The error, if any, is the one at which reading the
/// text of the database's own statistics stopped; the others are gathered even so.
pub fn get_store_statistics(
    statistics: Option<&str>,
    readings: &Vec<PropertyReading>,
    context: &mut PerfContext,
) -> (r: (Option<StoreStatistics>, Option<StatsParseError>))
    requires
        is_reportable(old(context)@),
    ensures
        ({
            let own = own_statistics(match statistics {
                Some(text) => Some(text@),
                None => None,
            });
            let rows = own.0 + property_rows(readings@) + context_rows(old(context)@);
            &&& r.0 is None <==> rows.len() == 0
            &&& r.0 matches Some(gathered) ==> gathered@ == rows
            &&& r.1 == own.1
        }),
        final(context)@ == Map::<DBCol, ColumnMeasurementView>::empty(),
{
    let mut result = StoreStatistics { data: Vec::new() };
    let mut error: Option<StatsParseError> = None;
    assert(result@ =~= Seq::empty());
    if let Some(text) = statistics {
        assert(Seq::<StatRow>::empty() + statistics_of(text@).0 =~= statistics_of(text@).0);
        if let Err(e) = parse_statistics(text, &mut result) {
            error = Some(e);
        }
    }
    fill_cf_statistics(readings, &mut result);
    fill_perf_data(context, &mut result);
    if result.data.len() == 0 {
        (None, error)
    } else {
        (Some(result), error)
    }
}

/// Measurements of fewer than 2^32 reads, and of at least one, can be reported.
pub proof fn law_measured_reads_are_reportable(m: ColumnMeasurementView)
    requires
        m.consistent(),
        0 < m.overall.samples <= u32::MAX,
    ensures
        has_averages(m),
{
    assert forall|blocks: usize| #[trigger]
        m.per_block_reads.contains_key(blocks) implies m.per_block_reads[blocks].has_average() by {
        law_tally_within_overall(m, blocks);
    }
}

/// Where nothing was measured, there is nothing to report, and reporting is possible.
pub proof fn law_nothing_measured_nothing_reported()
    ensures
        is_reportable(Map::<DBCol, ColumnMeasurementView>::empty()),
        context_rows(Map::<DBCol, ColumnMeasurementView>::empty()).len() == 0,
{
}

/// The members of `of` below `n` can be listed from the least to the greatest.
proof fn lemma_ascending_below(of: Set<usize>, n: int) -> (s: Seq<usize>)
    requires
        0 <= n <= usize::MAX + 1,
    ensures
        forall|i: int, j: int| 0 <= i < j < s.len() ==> s[i] < s[j],
        forall|x: usize| #[trigger] s.contains(x) <==> of.contains(x) && x < n,
    decreases n,
{
    if n == 0 {
        Seq::empty()
    } else {
        let rest = lemma_ascending_below(of, n - 1);
        let last = (n - 1) as usize;
        if of.contains(last) {
            let s = rest.push(last);
            assert forall|x: usize| #[trigger] s.contains(x) <==> of.contains(x) && x < n by {
                if rest.contains(x) {
                    let i = choose|i: int| 0 <= i < rest.len() && rest[i] == x;
                    assert(s[i] == x);
                }
                assert(s[s.len() - 1] == last);
                if s.contains(x) && x != last {
                    let i = choose|i: int| 0 <= i < s.len() && s[i] == x;
                    assert(rest[i] == x);
                }
            }
            assert forall|i: int, j: int| 0 <= i < j < s.len() implies s[i] < s[j] by {
                assert(rest.contains(rest[i]));
            }
            s
        } else {
            rest
        }
    }
}

proof fn lemma_ascending(of: Set<usize>)
    ensures
        is_ascending_list(ascending(of), of),
{
    let s = lemma_ascending_below(of, usize::MAX + 1);
    assert forall|x: usize| s.to_set().contains(x) <==> of.contains(x) by {
        assert(s.contains(x) <==> of.contains(x));
    }
    assert(s.to_set() =~= of);
    assert(is_ascending_list(s, of));
}

/// The number of blocks that a value is reported for.
pub open spec fn bucket_of(value: StatView) -> nat {
    digits_value(value->BucketBlockCount_1)
}

/// The number that is reported for a number of blocks.
pub open spec fn bucket_number(value: StatView) -> i64 {
    value->BucketBlockCount_2
}

proof fn lemma_bucket_stats(m: ColumnMeasurementView, figure: BucketFigure, i: int)
    requires
        0 <= i < bucket_stats(m, figure).len(),
    ensures
        ({
            let value = bucket_stats(m, figure)[i];
            let blocks = bucket_of(value) as usize;
            &&& value is BucketBlockCount
            &&& value->BucketBlockCount_0 == DBCol::State
            &&& all_digits(value->BucketBlockCount_1)
            &&& bucket_of(value) == blocks
            &&& blocks == ascending(m.per_block_reads.dom())[i]
            &&& m.per_block_reads.contains_key(blocks)
            &&& bucket_number(value) == bucket_figure(figure, m.per_block_reads[blocks])
        }),
{
    let list = ascending(m.per_block_reads.dom());
    lemma_ascending(m.per_block_reads.dom());
    lemma_decimal(list[i] as nat);
    assert(list.to_set().contains(list[i]));
}

/// The statistics that are reported after `reads` were recorded.
pub open spec fn report_of(reads: Seq<ReadRecord>) -> Seq<StatRow> {
    context_rows(recorded(reads))
}

/// `read` is one of the state column that read so many blocks.
pub open spec fn in_bucket(blocks: nat) -> spec_fn(ReadRecord) -> bool {
    |r: ReadRecord| r.col == DBCol::State && r.sample.block_read_count as usize == blocks as usize
}

/// How many of `reads` are of the state column and read so many blocks.
pub open spec fn count_in_bucket(reads: Seq<ReadRecord>, blocks: nat) -> nat {
    sum_of_reads(reads, in_bucket(blocks), |r: ReadRecord| 1nat)
}

/// The nanoseconds that those of `reads` that are of the state column and read so many blocks
/// spent reading them.
pub open spec fn time_in_bucket(reads: Seq<ReadRecord>, blocks: nat) -> nat {
    sum_of_reads(reads, in_bucket(blocks), |r: ReadRecord| r.sample.block_read_time as nat)
}

proof fn lemma_bucket_sums(reads: Seq<ReadRecord>, blocks: usize)
    ensures
        ({
            let m = measured(recorded(reads), DBCol::State);
            let t = m.tally(blocks);
            &&& t.samples == count_in_bucket(reads, blocks as nat)
            &&& t.total_nanos == time_in_bucket(reads, blocks as nat)
            &&& m.per_block_reads.contains_key(blocks) <==> count_in_bucket(reads, blocks as nat)
                > 0
        }),
{
    law_reads_add_up_per_blocks(reads, DBCol::State, blocks);
    let meant = |r: ReadRecord|
        r.col == DBCol::State && r.sample.block_read_count as usize == blocks;
    assert(in_bucket(blocks as nat) =~= meant);
}

proof fn lemma_whole_micros(nanos: nat)
    requires
        nanos / 1000 <= i64::MAX,
    ensures
        micros(nanos) * 1000 <= nanos < (micros(nanos) + 1) * 1000,
{
}

proof fn lemma_average_micros(total: nat, n: nat)
    requires
        n > 0,
        (total / n) / 1000 <= i64::MAX,
    ensures
        micros(total / n) * 1000 * n <= total,
        total < (micros(total / n) + 1) * 1000 * n,
{
    let v = micros(total / n) as int;
    let (t, d) = (total as int, n as int);
    let q = t / d;
    vstd::arithmetic::div_mod::lemma_fundamental_div_mod(t, d);
    vstd::arithmetic::div_mod::lemma_mod_bound(t, d);
    lemma_whole_micros(total / n);
    assert(v * 1000 * d <= q * d) by (nonlinear_arith)
        requires
            v * 1000 <= q,
            d > 0,
    ;
    assert((q + 1) * d <= (v + 1) * 1000 * d) by (nonlinear_arith)
        requires
            q + 1 <= (v + 1) * 1000,
            d > 0,
    ;
    assert(q * d == d * q) by (nonlinear_arith);
    assert((q + 1) * d == d * q + d) by (nonlinear_arith);
}

/// Where the state column was read, ten statistics are reported of it, under these names and in
/// this order; where it was not, none is.
pub proof fn law_report_has_its_rows(reads: Seq<ReadRecord>)
    ensures
        ({
            let rows = report_of(reads);
            let read = exists|i: int| 0 <= i < reads.len() && (#[trigger] reads[i]).col
                == DBCol::State;
            &&& !read ==> rows.len() == 0
            &&& read ==> rows.len() == 10
            &&& read ==> rows[0].0 == "rocksdb_perf_avg_read_block_latency"@
            &&& read ==> rows[1].0 == "rocksdb_perf_total_observed_latency_per_block"@
            &&& read ==> rows[2].0 == "rocksdb_perf_avg_observed_latency_per_block"@
            &&& read ==> rows[3].0 == "rocksdb_perf_count_per_block"@
            &&& read ==> rows[4].0 == "rocksdb_perf_total_lat_per_block"@
            &&& read ==> rows[5].0 == "rocksdb_perf_block_cache_hit"@
            &&& read ==> rows[6].0 == "rocksdb_perf_bloom_sst_hit"@
            &&& read ==> rows[7].0 == "rocksdb_perf_bloom_sst_miss"@
            &&& read ==> rows[8].0 == "rocksdb_perf_bloom_sst_hit"@
            &&& read ==> rows[9].0 == "rocksdb_perf_bloom_sst_hit"@
        }),
{
    law_reads_add_up(reads, DBCol::State);
}

/// What is reported per number of blocks is reported of the state column, for each number of
/// blocks that a read of it read and for no other, from the least to the greatest.
pub proof fn law_reported_buckets(reads: Seq<ReadRecord>, row: int)
    requires
        report_of(reads).len() == 10,
        1 <= row <= 4,
    ensures
        ({
            let values = report_of(reads)[row].1;
            &&& forall|i: int|
                0 <= i < values.len() ==> {
                    &&& #[trigger] values[i] is BucketBlockCount
                    &&& values[i]->BucketBlockCount_0 == DBCol::State
                    &&& all_digits(values[i]->BucketBlockCount_1)
                    &&& bucket_of(values[i]) <= usize::MAX
                    &&& count_in_bucket(reads, bucket_of(values[i])) > 0
                }
            &&& forall|i: int, j: int|
                0 <= i < j < values.len() ==> bucket_of(#[trigger] values[i]) < bucket_of(
                    #[trigger] values[j],
                )
            &&& forall|blocks: usize| #[trigger]
                count_in_bucket(reads, blocks as nat) > 0 ==> exists|i: int|
                    0 <= i < values.len() && bucket_of(#[trigger] values[i]) == blocks
        }),
{
    let m = measured(recorded(reads), DBCol::State);
    let figure = if row == 2 {
        BucketFigure::AverageLatency
    } else if row == 3 {
        BucketFigure::Samples
    } else {
        BucketFigure::TotalLatency
    };
    let values = report_of(reads)[row].1;
    let list = ascending(m.per_block_reads.dom());
    assert(values == bucket_stats(m, figure));
    lemma_ascending(m.per_block_reads.dom());
    assert forall|i: int| 0 <= i < values.len() implies {
        &&& #[trigger] values[i] is BucketBlockCount
        &&& values[i]->BucketBlockCount_0 == DBCol::State
        &&& all_digits(values[i]->BucketBlockCount_1)
        &&& bucket_of(values[i]) <= usize::MAX
        &&& bucket_of(values[i]) == list[i]
        &&& count_in_bucket(reads, bucket_of(values[i])) > 0
    } by {
        lemma_bucket_stats(m, figure, i);
        lemma_bucket_sums(reads, bucket_of(values[i]) as usize);
    }
    assert forall|blocks: usize| #[trigger]
        count_in_bucket(reads, blocks as nat) > 0 implies exists|i: int|
        0 <= i < values.len() && bucket_of(#[trigger] values[i]) == blocks by {
        lemma_bucket_sums(reads, blocks);
        assert(m.per_block_reads.dom().contains(blocks));
        assert(list.to_set().contains(blocks));
        let i = choose|i: int| 0 <= i < list.len() && list[i] == blocks;
        assert(bucket_of(values[i]) == blocks);
    }
}

/// The total that is reported for a number of blocks, under both of its names, is the time that
/// the reads with that number of blocks spent reading them, in whole microseconds.
pub proof fn law_reported_totals(reads: Seq<ReadRecord>, row: int, i: int)
    requires
        report_of(reads).len() == 10,
        row == 1 || row == 4,
        0 <= i < report_of(reads)[row].1.len(),
        time_in_bucket(reads, bucket_of(report_of(reads)[row].1[i])) / 1000 <= i64::MAX,
    ensures
        ({
            let value = report_of(reads)[row].1[i];
            let sum = time_in_bucket(reads, bucket_of(value));
            bucket_number(value) * 1000 <= sum < (bucket_number(value) + 1) * 1000
        }),
{
    let m = measured(recorded(reads), DBCol::State);
    let value = report_of(reads)[row].1[i];
    lemma_bucket_stats(m, BucketFigure::TotalLatency, i);
    lemma_bucket_sums(reads, bucket_of(value) as usize);
    lemma_whole_micros(time_in_bucket(reads, bucket_of(value)));
}

/// The average that is reported for a number of blocks is the time that the reads with that
/// number of blocks spent reading them, per read, in whole microseconds.
pub proof fn law_reported_averages(reads: Seq<ReadRecord>, i: int)
    requires
        report_of(reads).len() == 10,
        0 <= i < report_of(reads)[2].1.len(),
        count_in_bucket(reads, bucket_of(report_of(reads)[2].1[i])) <= u32::MAX,
        time_in_bucket(reads, bucket_of(report_of(reads)[2].1[i])) / 1000 <= i64::MAX,
    ensures
        ({
            let value = report_of(reads)[2].1[i];
            let sum = time_in_bucket(reads, bucket_of(value));
            let count = count_in_bucket(reads, bucket_of(value));
            &&& bucket_number(value) * 1000 * count <= sum
            &&& sum < (bucket_number(value) + 1) * 1000 * count
        }),
{
    let m = measured(recorded(reads), DBCol::State);
    let value = report_of(reads)[2].1[i];
    let (sum, count) = (
        time_in_bucket(reads, bucket_of(value)),
        count_in_bucket(reads, bucket_of(value)),
    );
    lemma_bucket_stats(m, BucketFigure::AverageLatency, i);
    lemma_bucket_sums(reads, bucket_of(value) as usize);
    lemma_average_within(sum, count);
    lemma_average_micros(sum, count);
}

proof fn lemma_average_within(total: nat, n: nat)
    requires
        n > 0,
        total / 1000 <= i64::MAX,
    ensures
        (total / n) / 1000 <= i64::MAX,
{
    vstd::arithmetic::div_mod::lemma_div_is_ordered_by_denominator(total as int, 1, n as int);
    vstd::arithmetic::div_mod::lemma_div_is_ordered((total / n) as int, total as int, 1000);
}

/// The count that is reported for a number of blocks is that of the reads with that number of
/// blocks.
pub proof fn law_reported_counts(reads: Seq<ReadRecord>, i: int)
    requires
        report_of(reads).len() == 10,
        0 <= i < report_of(reads)[3].1.len(),
        reads.len() <= i64::MAX,
    ensures
        ({
            let value = report_of(reads)[3].1[i];
            bucket_number(value) == count_in_bucket(reads, bucket_of(value))
        }),
{
    let m = measured(recorded(reads), DBCol::State);
    let value = report_of(reads)[3].1[i];
    lemma_bucket_stats(m, BucketFigure::Samples, i);
    lemma_bucket_sums(reads, bucket_of(value) as usize);
    lemma_count_within(reads, in_bucket(bucket_of(value)));
}

proof fn lemma_count_within(reads: Seq<ReadRecord>, meant: spec_fn(ReadRecord) -> bool)
    ensures
        sum_of_reads(reads, meant, |r: ReadRecord| 1nat) <= reads.len(),
    decreases reads.len(),
{
    if reads.len() > 0 {
        lemma_count_within(reads.drop_last(), meant);
    }
}

/// For every number of blocks, the reported average times the reported count is at most the
/// reported total, under both of its names.
pub proof fn law_average_times_count_within_total(reads: Seq<ReadRecord>, i: int)
    requires
        report_of(reads).len() == 10,
        0 <= i < report_of(reads)[1].1.len(),
        reads.len() <= u32::MAX,
        time_in_bucket(reads, bucket_of(report_of(reads)[1].1[i])) / 1000 <= i64::MAX,
    ensures
        ({
            let rows = report_of(reads);
            &&& bucket_number(rows[2].1[i]) * bucket_number(rows[3].1[i]) <= bucket_number(
                rows[1].1[i],
            )
            &&& rows[4].1 == rows[1].1
        }),
{
    let m = measured(recorded(reads), DBCol::State);
    let rows = report_of(reads);
    lemma_bucket_stats(m, BucketFigure::TotalLatency, i);
    lemma_bucket_stats(m, BucketFigure::AverageLatency, i);
    lemma_bucket_stats(m, BucketFigure::Samples, i);
    lemma_count_within(reads, in_bucket(bucket_of(rows[1].1[i])));
    law_reported_totals(reads, 1, i);
    law_reported_averages(reads, i);
    law_reported_counts(reads, i);
    let (total, avg, count) = (
        bucket_number(rows[1].1[i]) as int,
        bucket_number(rows[2].1[i]) as int,
        bucket_number(rows[3].1[i]) as int,
    );
    assert(avg * count <= total) by (nonlinear_arith)
        requires
            avg * 1000 * count < (total + 1) * 1000,
    ;
}

/// The total that is reported for a number of blocks never gets less with one more read.
pub proof fn law_totals_never_get_less(
    reads: Seq<ReadRecord>,
    read: ReadRecord,
    row: int,
    i: int,
    j: int,
)
    requires
        report_of(reads).len() == 10,
        report_of(reads.push(read)).len() == 10,
        row == 1 || row == 4,
        0 <= i < report_of(reads)[row].1.len(),
        0 <= j < report_of(reads.push(read))[row].1.len(),
        bucket_of(report_of(reads)[row].1[i]) == bucket_of(report_of(reads.push(read))[row].1[j]),
        time_in_bucket(reads.push(read), bucket_of(report_of(reads)[row].1[i])) / 1000 <= i64::MAX,
    ensures
        bucket_number(report_of(reads)[row].1[i]) <= bucket_number(
            report_of(reads.push(read))[row].1[j],
        ),
{
    let blocks = bucket_of(report_of(reads)[row].1[i]);
    assert(reads.push(read).drop_last() =~= reads);
    assert(time_in_bucket(reads, blocks) <= time_in_bucket(reads.push(read), blocks));
    vstd::arithmetic::div_mod::lemma_div_is_ordered(
        time_in_bucket(reads, blocks) as int,
        time_in_bucket(reads.push(read), blocks) as int,
        1000,
    );
    law_reported_totals(reads, row, i);
    law_reported_totals(reads.push(read), row, j);
}

/// What `figure` gives for those of `reads` that are of the state column, added up.
pub open spec fn state_sum(
    reads: Seq<ReadRecord>,
    figure: spec_fn(ReadRecord) -> nat,
) -> nat {
    sum_of_reads(reads, |r: ReadRecord| r.col == DBCol::State, figure)
}

/// `values` is the one number `n` of the state column, where it is in range.
pub open spec fn reports(values: Seq<StatView>, n: nat) -> bool {
    n <= i64::MAX ==> values.len() == 1 && values[0] == StatView::ColumnValue(
        DBCol::State,
        n as i64,
    )
}

/// What is reported of caches is what the reads of the state column add up to: the hits of the
/// block cache, the hits and the misses of the filters of memory tables, and twice the uses of
/// the filters of table files.
pub proof fn law_reported_caches(reads: Seq<ReadRecord>)
    requires
        report_of(reads).len() == 10,
    ensures
        ({
            let rows = report_of(reads);
            let table_filters = state_sum(
                reads,
                |r: ReadRecord|
                    (r.sample.bloom_sst_hit_count + r.sample.bloom_sst_miss_count) as nat,
            );
            &&& reports(
                rows[5].1,
                state_sum(reads, |r: ReadRecord| r.sample.block_cache_hit_count as nat),
            )
            &&& reports(
                rows[6].1,
                state_sum(reads, |r: ReadRecord| r.sample.bloom_memtable_hit_count as nat),
            )
            &&& reports(
                rows[7].1,
                state_sum(reads, |r: ReadRecord| r.sample.bloom_memtable_miss_count as nat),
            )
            &&& reports(rows[8].1, table_filters)
            &&& reports(rows[9].1, table_filters)
        }),
{
    law_reads_add_up(reads, DBCol::State);
}

/// The average latency that is reported first is the time that the reads of the state column
/// were observed to take, per read, in whole microseconds.
pub proof fn law_reported_observed_latency(reads: Seq<ReadRecord>)
    requires
        report_of(reads).len() == 10,
        reads.len() <= u32::MAX,
        state_sum(reads, |r: ReadRecord| r.nanos) / 1000 <= i64::MAX,
    ensures
        ({
            let values = report_of(reads)[0].1;
            let count = state_sum(reads, |r: ReadRecord| 1nat);
            let sum = state_sum(reads, |r: ReadRecord| r.nanos);
            &&& values.len() == 1
            &&& values[0] matches StatView::ColumnValue(col, v)
            &&& col == DBCol::State
            &&& v * 1000 * count <= sum
            &&& sum < (v + 1) * 1000 * count
        }),
{
    law_reads_add_up(reads, DBCol::State);
    let count = state_sum(reads, |r: ReadRecord| 1nat);
    let sum = state_sum(reads, |r: ReadRecord| r.nanos);
    lemma_count_within(reads, |r: ReadRecord| r.col == DBCol::State);
    lemma_count_positive(reads, |r: ReadRecord| r.col == DBCol::State);
    lemma_average_within(sum, count);
    lemma_average_micros(sum, count);
}

proof fn lemma_count_positive(reads: Seq<ReadRecord>, meant: spec_fn(ReadRecord) -> bool)
    requires
        exists|i: int| 0 <= i < reads.len() && meant(#[trigger] reads[i]),
    ensures
        sum_of_reads(reads, meant, |r: ReadRecord| 1nat) > 0,
    decreases reads.len(),
{
    let i = choose|i: int| 0 <= i < reads.len() && meant(#[trigger] reads[i]);
    if i < reads.len() - 1 {
        assert(meant(reads.drop_last()[i]));
        lemma_count_positive(reads.drop_last(), meant);
    }
}

/// However many reads were recorded, as long as they can be counted in 32 bits, the statistics of
/// reads can be taken.
pub proof fn law_recorded_reads_are_reportable(reads: Seq<ReadRecord>)
    requires
        reads.len() <= u32::MAX,
    ensures
        is_reportable(recorded(reads)),
{
    law_reads_add_up(reads, DBCol::State);
    if recorded(reads).contains_key(DBCol::State) {
        let m = measured(recorded(reads), DBCol::State);
        lemma_count_within(reads, |r: ReadRecord| r.col == DBCol::State);
        lemma_count_positive(reads, |r: ReadRecord| r.col == DBCol::State);
        assert forall|blocks: usize| #[trigger]
            m.per_block_reads.contains_key(
                blocks,
            ) implies m.per_block_reads[blocks].has_average() by {
            lemma_bucket_sums(reads, blocks);
            lemma_count_within(reads, in_bucket(blocks as nat));
        }
    }
}

/// Where the state column was not read, the statistics of reads can be taken, and there are none.
pub proof fn law_other_columns_are_not_reported(context: Map<DBCol, ColumnMeasurementView>)
    requires
        !context.contains_key(DBCol::State),
    ensures
        is_reportable(context),
        context_rows(context).len() == 0,
{
}

/// How many column families gave a value.
pub open spec fn count_given(values: Seq<(DBCol, Option<u64>)>) -> nat {
    values.filter(|v: (DBCol, Option<u64>)| v.1 is Some).len()
}

/// Every value that a column family gave is reported, whatever it is, at the place that counts
/// the values given before it, and nothing else is.
pub proof fn law_every_given_value_is_reported(values: Seq<(DBCol, Option<u64>)>, i: int)
    requires
        0 <= i < values.len(),
    ensures
        given_values(values).len() == count_given(values),
        values[i].1 is Some ==> {
            &&& count_given(values.take(i)) < count_given(values)
            &&& given_values(values)[count_given(values.take(i)) as int] == StatView::ColumnValue(
                values[i].0,
                values[i].1->0 as i64,
            )
        },
{
    lemma_given_values(values);
}

proof fn lemma_given_values(values: Seq<(DBCol, Option<u64>)>)
    ensures
        given_values(values).len() == count_given(values),
        forall|i: int|
            0 <= i < values.len() && (#[trigger] values[i]).1 is Some ==> {
                &&& count_given(values.take(i)) < count_given(values)
                &&& given_values(values)[count_given(values.take(i)) as int]
                    == StatView::ColumnValue(values[i].0, values[i].1->0 as i64)
            },
    decreases values.len(),
{
    reveal(Seq::filter);
    if values.len() > 0 {
        let rest = values.drop_last();
        let end = values.len() - 1;
        lemma_given_values(rest);
        assert(values.take(end) =~= rest);
        assert(count_given(values) == count_given(rest) + if values[end].1 is Some {
            1nat
        } else {
            0
        });
        assert(given_values(rest).is_prefix_of(given_values(values)));
        assert forall|i: int| 0 <= i < values.len() && (#[trigger] values[i]).1 is Some implies {
            &&& count_given(values.take(i)) < count_given(values)
            &&& given_values(values)[count_given(values.take(i)) as int] == StatView::ColumnValue(
                values[i].0,
                values[i].1->0 as i64,
            )
        } by {
            if i < end {
                let at = count_given(rest.take(i)) as int;
                assert(rest[i] == values[i]);
                assert(rest.take(i) =~= values.take(i));
                assert(at < given_values(rest).len());
                assert(given_values(values)[at] == given_values(rest)[at]);
            } else {
                assert(values.take(i) == rest);
                assert(given_values(values).last() == StatView::ColumnValue(
                    values[i].0,
                    values[i].1->0 as i64,
                ));
            }
        }
    }
}

/// How many of `readings` have a value of some column family.
pub open spec fn count_read(readings: Seq<PropertyReading>) -> nat {
    readings.filter(|r: PropertyReading| count_given(r.values@) > 0).len()
}

/// A property is reported exactly where some column family gave a value, under its name and with
/// all of the values given, at the place that counts the properties reported before it.
pub proof fn law_every_read_property_is_reported(readings: Seq<PropertyReading>, i: int)
    requires
        0 <= i < readings.len(),
    ensures
        property_rows(readings).len() == count_read(readings),
        (exists|k: int|
            0 <= k < readings[i].values@.len() && (#[trigger] readings[i].values@[k]).1 is Some)
            ==> {
            &&& count_read(readings.take(i)) < count_read(readings)
            &&& property_rows(readings)[count_read(readings.take(i)) as int] == (
                readings[i].name@,
                given_values(readings[i].values@),
            )
        },
{
    lemma_property_rows(readings);
    if exists|k: int|
        0 <= k < readings[i].values@.len() && (#[trigger] readings[i].values@[k]).1 is Some {
        let values = readings[i].values@;
        let k = choose|k: int| 0 <= k < values.len() && (#[trigger] values[k]).1 is Some;
        law_every_given_value_is_reported(values, k);
    }
}

proof fn lemma_property_rows(readings: Seq<PropertyReading>)
    ensures
        property_rows(readings).len() == count_read(readings),
        forall|i: int|
            0 <= i < readings.len() && count_given((#[trigger] readings[i]).values@) > 0 ==> {
                &&& count_read(readings.take(i)) < count_read(readings)
                &&& property_rows(readings)[count_read(readings.take(i)) as int] == (
                    readings[i].name@,
                    given_values(readings[i].values@),
                )
            },
    decreases readings.len(),
{
    reveal(Seq::filter);
    if readings.len() > 0 {
        let rest = readings.drop_last();
        let end = readings.len() - 1;
        lemma_property_rows(rest);
        lemma_given_values(readings[end].values@);
        assert(readings.take(end) =~= rest);
        assert(count_read(readings) == count_read(rest) + if count_given(readings[end].values@)
            > 0 {
            1nat
        } else {
            0
        });
        assert(property_rows(rest).is_prefix_of(property_rows(readings)));
        assert forall|i: int|
            0 <= i < readings.len() && count_given((#[trigger] readings[i]).values@) > 0 implies {
            &&& count_read(readings.take(i)) < count_read(readings)
            &&& property_rows(readings)[count_read(readings.take(i)) as int] == (
                readings[i].name@,
                given_values(readings[i].values@),
            )
        } by {
            if i < end {
                let at = count_read(rest.take(i)) as int;
                assert(rest[i] == readings[i]);
                assert(rest.take(i) =~= readings.take(i));
                assert(at < property_rows(rest).len());
                assert(property_rows(readings)[at] == property_rows(rest)[at]);
            } else {
                assert(readings.take(i) == rest);
            }
        }
    }
}

/// Each property is read once: every named one, and the number of files at each of the levels
/// from 0 to 6.
pub proof fn law_every_property_is_read_once(property: CfProperty)
    ensures
        property_list().contains(property) <==> (property matches CfProperty::NumFilesAtLevel(level)
            ==> level <= 6),
        forall|i: int, j: int|
            0 <= i < j < property_list().len() ==> #[trigger] property_list()[i]
                != #[trigger] property_list()[j],
{
    let list = property_list();
    assert(list.len() == 17);
    match property {
        CfProperty::NumFilesAtLevel(level) => {
            if level <= 6 {
                assert(list[10 + level] == property);
            }
        },
        CfProperty::LiveSstFilesSize => assert(list[0] == property),
        CfProperty::EstimateLiveDataSize => assert(list[1] == property),
        CfProperty::CompactionPending => assert(list[2] == property),
        CfProperty::NumRunningCompactions => assert(list[3] == property),
        CfProperty::EstimatePendingCompactionBytes => assert(list[4] == property),
        CfProperty::EstimateTableReadersMem => assert(list[5] == property),
        CfProperty::BlockCacheCapacity => assert(list[6] == property),
        CfProperty::BlockCacheUsage => assert(list[7] == property),
        CfProperty::CurSizeActiveMemTable => assert(list[8] == property),
        CfProperty::SizeAllMemTables => assert(list[9] == property),
    }
}

/// The database's own statistics are those that its text gives; without a text there are none,
/// and there is no error.
pub proof fn law_own_statistics_are_those_of_the_text(text: Seq<char>)
    ensures
        own_statistics(Some(text)) == statistics_of(text),
        own_statistics(None).0.len() == 0,
        own_statistics(None).1 is None,
{
}

} // verus!
