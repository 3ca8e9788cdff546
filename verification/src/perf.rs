//! What is measured of database reads, per column.
use std::collections::BTreeMap;
use std::collections::HashMap;

use vstd::prelude::*;

use crate::column::{law_every_column_listed_once, DBCol};
use crate::latency::{latency_text, Latency, MAX_NANOS};
use crate::number::{all_digits, decimal, decimal_string, digits_value, lemma_decimal};

verus! {

broadcast use {
    vstd::std_specs::hash::group_hash_axioms,
    vstd::std_specs::btree::group_btree_axioms,
};

/// How often a cache was asked and how it answered.
#[derive(Clone, Copy, Debug, PartialEq, Eq, Structural)]
pub struct CacheUsage {
    pub hits: u64,
    pub miss: u64,
    pub count: u64,
}

/// The numbers of a [`CacheUsage`].
pub struct CacheUsageView {
    pub hits: nat,
    pub miss: nat,
    pub count: nat,
}

impl CacheUsageView {
    /// No use at all.
    pub open spec fn empty() -> Self {
        CacheUsageView { hits: 0, miss: 0, count: 0 }
    }

    /// After `n` more hits.
    pub open spec fn after_hits(self, n: nat) -> Self {
        CacheUsageView { hits: self.hits + n, miss: self.miss, count: self.count + n }
    }

    /// After `n` more misses.
    pub open spec fn after_miss(self, n: nat) -> Self {
        CacheUsageView { hits: self.hits, miss: self.miss + n, count: self.count + n }
    }

    /// Every number fits in 64 bits.
    pub open spec fn fits(self) -> bool {
        self.hits <= u64::MAX && self.miss <= u64::MAX && self.count <= u64::MAX
    }

    /// The count is that of hits and misses together.
    pub open spec fn balanced(self) -> bool {
        self.count == self.hits + self.miss
    }
}

impl View for CacheUsage {
    type V = CacheUsageView;

    open spec fn view(&self) -> CacheUsageView {
        CacheUsageView { hits: self.hits as nat, miss: self.miss as nat, count: self.count as nat }
    }
}

impl Default for CacheUsage {
    fn default() -> (r: Self)
        ensures
            r@ == CacheUsageView::empty(),
    {
        CacheUsage { hits: 0, miss: 0, count: 0 }
    }
}

impl CacheUsage {
    /// Counts `hits` more hits.
    pub fn add_hits(&mut self, hits: u64)
        requires
            old(self)@.after_hits(hits as nat).fits(),
        ensures
            final(self)@ == old(self)@.after_hits(hits as nat),
    {
        self.hits += hits;
        self.count += hits;
    }

    /// Counts `miss` more misses.
    pub fn add_miss(&mut self, miss: u64)
        requires
            old(self)@.after_miss(miss as nat).fits(),
        ensures
            final(self)@ == old(self)@.after_miss(miss as nat),
    {
        self.miss += miss;
        self.count += miss;
    }
}

/// A tally of latencies.
#[derive(Clone, Copy, PartialEq, Eq)]
pub struct Measurements {
    pub samples: usize,
    pub total_read_block_latency: Latency,
    pub samples_with_merge: usize,
    pub zeros: usize,
}

/// The numbers of a [`Measurements`].
pub struct MeasurementsView {
    pub samples: nat,
    pub total_nanos: nat,
    pub samples_with_merge: nat,
    pub zeros: nat,
}

impl MeasurementsView {
    /// No samples.
    pub open spec fn empty() -> Self {
        MeasurementsView { samples: 0, total_nanos: 0, samples_with_merge: 0, zeros: 0 }
    }

    /// After one more sample of `nanos` nanoseconds. It counts as a zero where the total is
    /// still zero with it.
    pub open spec fn after(self, nanos: nat, has_merge: bool) -> Self {
        MeasurementsView {
            samples: self.samples + 1,
            total_nanos: self.total_nanos + nanos,
            samples_with_merge: self.samples_with_merge + if has_merge {
                1nat
            } else {
                0nat
            },
            zeros: self.zeros + if self.total_nanos + nanos == 0 {
                1nat
            } else {
                0nat
            },
        }
    }

    /// Every number fits in its machine type.
    pub open spec fn fits(self) -> bool {
        &&& self.samples <= usize::MAX
        &&& self.total_nanos <= MAX_NANOS
        &&& self.samples_with_merge <= usize::MAX
        &&& self.zeros <= usize::MAX
    }

    /// The average can be taken: the number of samples, in 32 bits, is not zero.
    pub open spec fn has_average(self) -> bool {
        self.samples as u32 != 0
    }

    /// The nanoseconds per sample, rounded down. The number of samples is taken in 32 bits.
    pub open spec fn average(self) -> nat {
        self.total_nanos / (self.samples as u32 as nat)
    }
}

impl View for Measurements {
    type V = MeasurementsView;

    open spec fn view(&self) -> MeasurementsView {
        MeasurementsView {
            samples: self.samples as nat,
            total_nanos: self.total_read_block_latency@,
            samples_with_merge: self.samples_with_merge as nat,
            zeros: self.zeros as nat,
        }
    }
}

impl Default for Measurements {
    fn default() -> (r: Self)
        ensures
            r@ == MeasurementsView::empty(),
    {
        Measurements {
            samples: 0,
            total_read_block_latency: Latency::default(),
            samples_with_merge: 0,
            zeros: 0,
        }
    }
}

impl Measurements {
    /// Adds one sample.
    pub fn add(&mut self, read_block_latency: Latency, has_merge: bool)
        requires
            old(self)@.after(read_block_latency@, has_merge).fits(),
        ensures
            final(self)@ == old(self)@.after(read_block_latency@, has_merge),
    {
        self.samples += 1;
        self.total_read_block_latency = self.total_read_block_latency.plus(read_block_latency);
        if self.total_read_block_latency.is_zero() {
            self.zeros += 1;
        }
        if has_merge {
            self.samples_with_merge += 1;
        }
    }

    /// Whether one more sample can be added.
    pub fn has_room(&self, read_block_latency: Latency, has_merge: bool) -> (r: bool)
        ensures
            r == self@.after(read_block_latency@, has_merge).fits(),
    {
        let total: u128 = self.total_read_block_latency.as_nanos() + read_block_latency.as_nanos();
        self.samples < usize::MAX && total <= MAX_NANOS && (!has_merge || self.samples_with_merge
            < usize::MAX) && (total != 0 || self.zeros < usize::MAX)
    }

    /// The latency per sample, rounded down to whole nanoseconds.
    pub fn avg_read_block_latency(&self) -> (r: Latency)
        requires
            self@.has_average(),
        ensures
            r@ == self@.average(),
    {
        self.total_read_block_latency.divided_by(self.samples as u32)
    }
}

/// A line that shows a tally, given the texts of its latencies.
pub open spec fn tally_line(t: MeasurementsView, total: Seq<char>, avg: Seq<char>) -> Seq<char> {
    "Measurements: samples: "@ + decimal(t.samples) + ", total: "@ + total + " zeros: "@ + decimal(
        t.zeros,
    ) + " avg: "@ + avg + "\n"@
}

impl Measurements {
    /// A line that shows the tally, given the texts of its latencies.
    pub fn line(&self, total: &str, avg: &str) -> (r: String)
        ensures
            r@ == tally_line(self@, total@, avg@),
    {
        let mut out = String::new();
        out.append("Measurements: samples: ");
        out.append(decimal_string(self.samples as u64).as_str());
        out.append(", total: ");
        out.append(total);
        out.append(" zeros: ");
        out.append(decimal_string(self.zeros as u64).as_str());
        out.append(" avg: ");
        out.append(avg);
        out.append("\n");
        assert(Seq::<char>::empty() + "Measurements: samples: "@ =~= "Measurements: samples: "@);
        out
    }

    /// A line that shows the tally, for debugging.
    pub fn debug_text(&self) -> (r: String)
        requires
            self@.has_average(),
        ensures
            r@ == tally_line(
                self@,
                latency_text(self@.total_nanos),
                latency_text(self@.average()),
            ),
    {
        let total = self.total_read_block_latency.debug_text();
        let avg = self.avg_read_block_latency().debug_text();
        self.line(total.as_str(), avg.as_str())
    }
}

/// What the database counted while it served one read.
#[derive(Clone, Copy, Debug, PartialEq, Eq)]
pub struct PerfSample {
    pub block_cache_hit_count: u64,
    pub bloom_memtable_hit_count: u64,
    pub bloom_memtable_miss_count: u64,
    pub bloom_sst_hit_count: u64,
    pub bloom_sst_miss_count: u64,
    pub block_read_count: u64,
    pub block_read_time: u64,
    pub merge_operator_time_nanos: u64,
}

impl PerfSample {
    /// How many blocks were read, as the key under which the read is tallied.
    pub open spec fn blocks(self) -> usize {
        self.block_read_count as usize
    }

    /// Whether the merge operator took any time.
    pub open spec fn merged(self) -> bool {
        self.merge_operator_time_nanos > 0
    }
}

/// Everything measured of the reads of one column.
pub struct ColumnMeasurement {
    pub measurements_per_block_reads: BTreeMap<usize, Measurements>,
    pub measurements_overall: Measurements,
    pub block_cache: CacheUsage,
    pub bloom_mem: CacheUsage,
    pub bloom_sst: CacheUsage,
}

/// The numbers of a [`ColumnMeasurement`].
#[verifier::ext_equal]
pub struct ColumnMeasurementView {
    /// For each number of blocks, the reads that read so many blocks.
    pub per_block_reads: Map<usize, MeasurementsView>,
    pub overall: MeasurementsView,
    pub block_cache: CacheUsageView,
    pub bloom_mem: CacheUsageView,
    pub bloom_sst: CacheUsageView,
}

impl ColumnMeasurementView {
    /// Nothing measured.
    pub open spec fn empty() -> Self {
        ColumnMeasurementView {
            per_block_reads: Map::empty(),
            overall: MeasurementsView::empty(),
            block_cache: CacheUsageView::empty(),
            bloom_mem: CacheUsageView::empty(),
            bloom_sst: CacheUsageView::empty(),
        }
    }

    /// The tally of the reads that read `blocks` blocks.
    pub open spec fn tally(self, blocks: usize) -> MeasurementsView {
        if self.per_block_reads.contains_key(blocks) {
            self.per_block_reads[blocks]
        } else {
            MeasurementsView::empty()
        }
    }

    /// After one more read, observed to take `nanos` nanoseconds.
    ///
    /// The time spent reading blocks goes to the tally of the number of blocks, the observed
    /// time to the overall one. The hits and the misses of the filters of table files both
    /// count as hits.
    pub open spec fn after(self, sample: PerfSample, nanos: nat) -> Self {
        ColumnMeasurementView {
            per_block_reads: self.per_block_reads.insert(
                sample.blocks(),
                self.tally(sample.blocks()).after(sample.block_read_time as nat, sample.merged()),
            ),
            overall: self.overall.after(nanos, sample.merged()),
            block_cache: self.block_cache.after_hits(sample.block_cache_hit_count as nat),
            bloom_mem: self.bloom_mem.after_hits(sample.bloom_memtable_hit_count as nat).after_miss(
                sample.bloom_memtable_miss_count as nat,
            ),
            bloom_sst: self.bloom_sst.after_hits(sample.bloom_sst_hit_count as nat).after_hits(
                sample.bloom_sst_miss_count as nat,
            ),
        }
    }

    /// The numbers that a read changes fit in their machine types after it.
    pub open spec fn has_room(self, sample: PerfSample, nanos: nat) -> bool {
        let new = self.after(sample, nanos);
        &&& new.tally(sample.blocks()).fits()
        &&& new.overall.fits()
        &&& new.block_cache.fits()
        &&& new.bloom_mem.fits()
        &&& new.bloom_sst.fits()
    }
}

impl View for ColumnMeasurement {
    type V = ColumnMeasurementView;

    open spec fn view(&self) -> ColumnMeasurementView {
        ColumnMeasurementView {
            per_block_reads: self.measurements_per_block_reads@.map_values(
                |m: Measurements| m@,
            ),
            overall: self.measurements_overall@,
            block_cache: self.block_cache@,
            bloom_mem: self.bloom_mem@,
            bloom_sst: self.bloom_sst@,
        }
    }
}

impl Default for ColumnMeasurement {
    fn default() -> (r: Self)
        ensures
            r@ == ColumnMeasurementView::empty(),
    {
        let r = ColumnMeasurement {
            measurements_per_block_reads: BTreeMap::new(),
            measurements_overall: Measurements::default(),
            block_cache: CacheUsage::default(),
            bloom_mem: CacheUsage::default(),
            bloom_sst: CacheUsage::default(),
        };
        assert(r@.per_block_reads =~= Map::empty());
        r
    }
}

impl ColumnMeasurement {
    /// Adds what was measured of one read that was observed to take `obs_latency`.
    pub fn record(&mut self, obs_latency: Latency, sample: &PerfSample)
        requires
            old(self)@.has_room(*sample, obs_latency@),
        ensures
            final(self)@ == old(self)@.after(*sample, obs_latency@),
    {
        // Add cache measurements
        self.block_cache.add_hits(sample.block_cache_hit_count);
        self.bloom_mem.add_hits(sample.bloom_memtable_hit_count);
        self.bloom_mem.add_miss(sample.bloom_memtable_miss_count);
        self.bloom_sst.add_hits(sample.bloom_sst_hit_count);
        self.bloom_sst.add_hits(sample.bloom_sst_miss_count);

        // Add block latencies measurements
        let block_read_cnt: usize = sample.block_read_count as usize;
        let read_block_latency = Latency::from_nanos(sample.block_read_time);
        let has_merge: bool = sample.merge_operator_time_nanos > 0;
        let mut tally = self.tally_for(block_read_cnt);
        tally.add(read_block_latency, has_merge);
        self.measurements_per_block_reads.insert(block_read_cnt, tally);
        self.measurements_overall.add(obs_latency, has_merge);
        assert(self@.per_block_reads =~= old(self)@.after(*sample, obs_latency@).per_block_reads);
    }

    fn tally_for(&self, blocks: usize) -> (r: Measurements)
        ensures
            r@ == self@.tally(blocks),
    {
        match self.measurements_per_block_reads.get(&blocks) {
            Some(m) => *m,
            None => Measurements::default(),
        }
    }

    /// Whether what was measured of one more read can be added.
    pub fn has_room(&self, obs_latency: Latency, sample: &PerfSample) -> (r: bool)
        ensures
            r == self@.has_room(*sample, obs_latency@),
    {
        let has_merge: bool = sample.merge_operator_time_nanos > 0;
        let tally = self.tally_for(sample.block_read_count as usize);
        tally.has_room(Latency::from_nanos(sample.block_read_time), has_merge)
            && self.measurements_overall.has_room(obs_latency, has_merge)
            && usage_has_room(self.block_cache, sample.block_cache_hit_count, 0)
            && usage_has_room(
            self.bloom_mem,
            sample.bloom_memtable_hit_count,
            sample.bloom_memtable_miss_count,
        ) && sample.bloom_sst_hit_count <= u64::MAX - sample.bloom_sst_miss_count
            && usage_has_room(
            self.bloom_sst,
            sample.bloom_sst_hit_count + sample.bloom_sst_miss_count,
            0,
        )
    }
}

fn usage_has_room(usage: CacheUsage, hits: u64, miss: u64) -> (r: bool)
    ensures
        r == usage@.after_hits(hits as nat).after_miss(miss as nat).fits(),
{
    usage.hits <= u64::MAX - hits && usage.miss <= u64::MAX - miss && hits <= u64::MAX - miss
        && usage.count <= u64::MAX - (hits + miss)
}

/// What was measured of reads since the last report, for each column that was read.
pub struct PerfContext {
    column_measurements: HashMap<usize, ColumnMeasurement>,
}

/// The measurements of `col`, empty where there are none.
pub open spec fn measured(
    context: Map<DBCol, ColumnMeasurementView>,
    col: DBCol,
) -> ColumnMeasurementView {
    if context.contains_key(col) {
        context[col]
    } else {
        ColumnMeasurementView::empty()
    }
}

impl View for PerfContext {
    type V = Map<DBCol, ColumnMeasurementView>;

    closed spec fn view(&self) -> Map<DBCol, ColumnMeasurementView> {
        Map::new(
            |col: DBCol| self.column_measurements@.contains_key(col.ordinal() as usize),
            |col: DBCol| self.column_measurements@[col.ordinal() as usize]@,
        )
    }
}

impl PerfContext {
    /// A context in which nothing has been measured.
    pub fn new() -> (r: Self)
        ensures
            r@ == Map::<DBCol, ColumnMeasurementView>::empty(),
    {
        let r = PerfContext { column_measurements: HashMap::new() };
        assert(r@ =~= Map::empty());
        r
    }

    /// Adds what the database counted while it served one read of `col`, observed to take
    /// `obs_latency`.
    pub fn record(&mut self, col: DBCol, obs_latency: Latency, sample: &PerfSample)
        requires
            measured(old(self)@, col).has_room(*sample, obs_latency@),
        ensures
            final(self)@ == old(self)@.insert(
                col,
                measured(old(self)@, col).after(*sample, obs_latency@),
            ),
    {
        let index: usize = col.index();
        let col_measurement = self.column_measurements.entry(index).or_insert(
            ColumnMeasurement::default(),
        );
        col_measurement.record(obs_latency, sample);
        proof {
            assert forall|c: DBCol| c.ordinal() == col.ordinal() implies c == col by {
                law_every_column_listed_once(c);
                law_every_column_listed_once(col);
            }
            assert(self@ =~= old(self)@.insert(
                col,
                measured(old(self)@, col).after(*sample, obs_latency@),
            ));
        }
    }

    /// Whether what was measured of one more read of `col` can be added.
    pub fn can_record(&self, col: DBCol, obs_latency: Latency, sample: &PerfSample) -> (r: bool)
        ensures
            r == measured(self@, col).has_room(*sample, obs_latency@),
    {
        match self.column_measurements.get(&col.index()) {
            Some(m) => m.has_room(obs_latency, sample),
            None => ColumnMeasurement::default().has_room(obs_latency, sample),
        }
    }

    /// The measurements of `col`, if it has been read.
    pub fn get(&self, col: DBCol) -> (r: Option<&ColumnMeasurement>)
        ensures
            match r {
                Some(m) => self@.contains_key(col) && self@[col] == m@,
                None => !self@.contains_key(col),
            },
    {
        self.column_measurements.get(&col.index())
    }

    /// Forgets everything that was measured.
    pub fn reset(&mut self)
        ensures
            final(self)@ == Map::<DBCol, ColumnMeasurementView>::empty(),
    {
        self.column_measurements.clear();
        assert(self@ =~= Map::empty());
    }
}

/// Whatever is counted of a cache, its count stays that of hits and misses together.
pub proof fn law_cache_usage_stays_balanced(usage: CacheUsageView, n: nat)
    requires
        usage.balanced(),
    ensures
        CacheUsageView::empty().balanced(),
        usage.after_hits(n).balanced(),
        usage.after_miss(n).balanced(),
{
}

/// The tally of `samples`, each a number of nanoseconds and whether there was a merge.
pub open spec fn tally_of(samples: Seq<(nat, bool)>) -> MeasurementsView
    decreases samples.len(),
{
    if samples.len() == 0 {
        MeasurementsView::empty()
    } else {
        tally_of(samples.drop_last()).after(samples.last().0, samples.last().1)
    }
}

/// The nanoseconds of `samples` together.
pub open spec fn sum_of(samples: Seq<(nat, bool)>) -> nat
    decreases samples.len(),
{
    if samples.len() == 0 {
        0
    } else {
        sum_of(samples.drop_last()) + samples.last().0
    }
}

/// How many of `samples` came with a merge.
pub open spec fn merges_of(samples: Seq<(nat, bool)>) -> nat {
    samples.filter(|s: (nat, bool)| s.1).len()
}

/// A tally holds the number of samples, their sum, and the number of those with a merge. Its
/// zeros are the samples before the first that took any time.
pub proof fn law_tally_of_samples(samples: Seq<(nat, bool)>, i: int)
    requires
        0 <= i < samples.len(),
    ensures
        ({
            let t = tally_of(samples);
            &&& t.samples == samples.len()
            &&& t.total_nanos == sum_of(samples)
            &&& t.samples_with_merge == merges_of(samples)
            &&& t.zeros <= t.samples
            &&& i < t.zeros ==> samples[i].0 == 0
            &&& i == t.zeros ==> samples[i].0 > 0
        }),
{
    lemma_tally_of_samples(samples);
}

proof fn lemma_tally_of_samples(samples: Seq<(nat, bool)>)
    ensures
        ({
            let t = tally_of(samples);
            &&& t.samples == samples.len()
            &&& t.total_nanos == sum_of(samples)
            &&& t.samples_with_merge == merges_of(samples)
            &&& t.zeros <= t.samples
            &&& t.total_nanos == 0 <==> t.zeros == t.samples
            &&& forall|i: int| 0 <= i < t.zeros ==> (#[trigger] samples[i]).0 == 0
            &&& t.zeros < t.samples ==> samples[t.zeros as int].0 > 0
        }),
    decreases samples.len(),
{
    let merged = |s: (nat, bool)| s.1;
    reveal(Seq::filter);
    if samples.len() > 0 {
        let rest = samples.drop_last();
        lemma_tally_of_samples(rest);
        assert forall|i: int| 0 <= i < tally_of(samples).zeros implies (#[trigger] samples[i]).0
            == 0 by {
            if i < rest.len() {
                assert(rest[i] == samples[i]);
            }
        }
        if tally_of(rest).zeros < rest.len() {
            assert(rest[tally_of(rest).zeros as int] == samples[tally_of(rest).zeros as int]);
        }
    }
}

/// The average, times the number of samples, is the total but for what rounding down drops.
pub proof fn law_average_rounds_down(t: MeasurementsView)
    requires
        t.has_average(),
    ensures
        t.average() * (t.samples as u32) <= t.total_nanos,
        t.total_nanos < (t.average() + 1) * (t.samples as u32),
{
    let n = t.samples as u32 as int;
    let total = t.total_nanos as int;
    vstd::arithmetic::div_mod::lemma_fundamental_div_mod(total, n);
    vstd::arithmetic::div_mod::lemma_mod_bound(total, n);
    assert((total / n) * n == n * (total / n)) by (nonlinear_arith);
    assert((total / n + 1) * n == n * (total / n) + n) by (nonlinear_arith);
}

/// What `figure` gives for each of `tallies`, added up.
pub open spec fn total_of(
    tallies: Map<usize, MeasurementsView>,
    figure: spec_fn(MeasurementsView) -> nat,
) -> nat
    decreases tallies.dom().len(),
    when tallies.dom().finite()
{
    if tallies.dom().len() == 0 {
        0
    } else {
        let k = tallies.dom().choose();
        figure(tallies[k]) + total_of(tallies.remove(k), figure)
    }
}

/// The number of samples of a tally.
pub open spec fn samples_figure() -> spec_fn(MeasurementsView) -> nat {
    |t: MeasurementsView| t.samples
}

/// The number of samples of a tally that came with a merge.
pub open spec fn merges_figure() -> spec_fn(MeasurementsView) -> nat {
    |t: MeasurementsView| t.samples_with_merge
}

proof fn lemma_total_split(
    tallies: Map<usize, MeasurementsView>,
    figure: spec_fn(MeasurementsView) -> nat,
    k: usize,
)
    requires
        tallies.dom().finite(),
        tallies.contains_key(k),
    ensures
        total_of(tallies, figure) == figure(tallies[k]) + total_of(tallies.remove(k), figure),
    decreases tallies.dom().len(),
{
    let c = tallies.dom().choose();
    assert(tallies.dom().len() > 0) by {
        if tallies.dom().len() == 0 {
            assert(tallies.dom() =~= Set::empty());
        }
    }
    if c != k {
        lemma_total_split(tallies.remove(c), figure, k);
        lemma_total_split(tallies.remove(k), figure, c);
        assert(tallies.remove(c).remove(k) =~= tallies.remove(k).remove(c));
    }
}

impl MeasurementsView {
    /// What holds of a tally whatever its samples: no more of them are zeros or came with a
    /// merge than there are, and all of them are zeros exactly where the total is zero.
    pub open spec fn consistent(self) -> bool {
        &&& self.zeros <= self.samples
        &&& self.samples_with_merge <= self.samples
        &&& self.total_nanos == 0 <==> self.zeros == self.samples
    }
}

impl ColumnMeasurementView {
    /// What holds of measurements however many reads they come from: the counts of caches are
    /// balanced, misses are counted of the filters of memory tables only, every tally is
    /// consistent and none is empty, and the tallies together have as many samples, and as many
    /// with a merge, as were taken overall.
    pub open spec fn consistent(self) -> bool {
        &&& self.block_cache.balanced()
        &&& self.block_cache.miss == 0
        &&& self.bloom_mem.balanced()
        &&& self.bloom_sst.balanced()
        &&& self.bloom_sst.miss == 0
        &&& self.per_block_reads.dom().finite()
        &&& forall|k: usize| #[trigger]
            self.per_block_reads.contains_key(k) ==> self.per_block_reads[k].samples > 0
                && self.per_block_reads[k].consistent()
        &&& self.overall.consistent()
        &&& self.overall.samples == total_of(self.per_block_reads, samples_figure())
        &&& self.overall.samples_with_merge == total_of(self.per_block_reads, merges_figure())
    }
}

/// Measurements are consistent before the first read, and stay so with every read.
pub proof fn law_measurements_stay_consistent(
    m: ColumnMeasurementView,
    sample: PerfSample,
    nanos: nat,
)
    requires
        m.consistent(),
    ensures
        ColumnMeasurementView::empty().consistent(),
        m.after(sample, nanos).consistent(),
{
    let k = sample.blocks();
    let old_tallies = m.per_block_reads;
    let new_tallies = m.after(sample, nanos).per_block_reads;
    lemma_total_split(new_tallies, samples_figure(), k);
    lemma_total_split(new_tallies, merges_figure(), k);
    if old_tallies.contains_key(k) {
        lemma_total_split(old_tallies, samples_figure(), k);
        lemma_total_split(old_tallies, merges_figure(), k);
        assert(new_tallies.remove(k) =~= old_tallies.remove(k));
    } else {
        assert(new_tallies.remove(k) =~= old_tallies);
    }
    assert(ColumnMeasurementView::empty().per_block_reads.dom() =~= Set::empty());
}

/// No tally of consistent measurements has more samples, or more with a merge, than were taken
/// overall.
pub proof fn law_tally_within_overall(m: ColumnMeasurementView, blocks: usize)
    requires
        m.consistent(),
    ensures
        m.tally(blocks).samples <= m.overall.samples,
        m.tally(blocks).samples_with_merge <= m.overall.samples_with_merge,
{
    if m.per_block_reads.contains_key(blocks) {
        lemma_total_split(m.per_block_reads, samples_figure(), blocks);
        lemma_total_split(m.per_block_reads, merges_figure(), blocks);
    }
}

/// The line that shows a tally holds the number of samples and of zeros in decimal digits, and
/// the texts of the latencies as they are.
pub proof fn law_tally_shown(t: MeasurementsView, total: Seq<char>, avg: Seq<char>)
    ensures
        exists|samples: Seq<char>, zeros: Seq<char>|
            {
                &&& #[trigger] all_digits(samples)
                &&& #[trigger] all_digits(zeros)
                &&& digits_value(samples) == t.samples
                &&& digits_value(zeros) == t.zeros
                &&& tally_line(t, total, avg) == "Measurements: samples: "@ + samples
                    + ", total: "@ + total + " zeros: "@ + zeros + " avg: "@ + avg + "\n"@
            },
{
    lemma_decimal(t.samples);
    lemma_decimal(t.zeros);
}

/// A read that was recorded: its column, what the database counted, and how many nanoseconds it
/// was observed to take.
pub struct ReadRecord {
    pub col: DBCol,
    pub sample: PerfSample,
    pub nanos: nat,
}

/// What recording `reads`, one after the other, makes of an empty context.
pub open spec fn recorded(reads: Seq<ReadRecord>) -> Map<DBCol, ColumnMeasurementView>
    decreases reads.len(),
{
    if reads.len() == 0 {
        Map::empty()
    } else {
        let before = recorded(reads.drop_last());
        let read = reads.last();
        before.insert(read.col, measured(before, read.col).after(read.sample, read.nanos))
    }
}

/// What `figure` gives for those of `reads` that are meant, added up.
pub open spec fn sum_of_reads(
    reads: Seq<ReadRecord>,
    meant: spec_fn(ReadRecord) -> bool,
    figure: spec_fn(ReadRecord) -> nat,
) -> nat
    decreases reads.len(),
{
    if reads.len() == 0 {
        0
    } else {
        sum_of_reads(reads.drop_last(), meant, figure) + if meant(reads.last()) {
            figure(reads.last())
        } else {
            0
        }
    }
}

/// The samples that those of `reads` that are meant give: the nanoseconds that `figure` gives,
/// and whether the merge operator took any time.
pub open spec fn samples_of_reads(
    reads: Seq<ReadRecord>,
    meant: spec_fn(ReadRecord) -> bool,
    figure: spec_fn(ReadRecord) -> nat,
) -> Seq<(nat, bool)>
    decreases reads.len(),
{
    if reads.len() == 0 {
        Seq::empty()
    } else {
        let rest = samples_of_reads(reads.drop_last(), meant, figure);
        if meant(reads.last()) {
            rest.push((figure(reads.last()), reads.last().sample.merge_operator_time_nanos > 0))
        } else {
            rest
        }
    }
}

/// What is measured of a column is what its reads add up to, and nothing is measured of a column
/// that was not read. Of the filters of table files, hits and misses both count as hits.
pub proof fn law_reads_add_up(reads: Seq<ReadRecord>, col: DBCol)
    ensures
        recorded(reads).contains_key(col) <==> exists|i: int|
            0 <= i < reads.len() && (#[trigger] reads[i]).col == col,
        ({
            let m = measured(recorded(reads), col);
            &&& m.overall.samples == sum_of_reads(
                reads,
                |r: ReadRecord| r.col == col,
                |r: ReadRecord| 1nat,
            )
            &&& m.overall.total_nanos == sum_of_reads(
                reads,
                |r: ReadRecord| r.col == col,
                |r: ReadRecord| r.nanos,
            )
            &&& m.overall.samples_with_merge == sum_of_reads(
                reads,
                |r: ReadRecord| r.col == col,
                |r: ReadRecord| if r.sample.merge_operator_time_nanos > 0 {
                        1nat
                    } else {
                        0
                    },
            )
            &&& m.block_cache.hits == sum_of_reads(
                reads,
                |r: ReadRecord| r.col == col,
                |r: ReadRecord| r.sample.block_cache_hit_count as nat,
            )
            &&& m.block_cache.count == sum_of_reads(
                reads,
                |r: ReadRecord| r.col == col,
                |r: ReadRecord| r.sample.block_cache_hit_count as nat,
            )
            &&& m.bloom_mem.hits == sum_of_reads(
                reads,
                |r: ReadRecord| r.col == col,
                |r: ReadRecord| r.sample.bloom_memtable_hit_count as nat,
            )
            &&& m.bloom_mem.miss == sum_of_reads(
                reads,
                |r: ReadRecord| r.col == col,
                |r: ReadRecord| r.sample.bloom_memtable_miss_count as nat,
            )
            &&& m.bloom_mem.count == sum_of_reads(
                reads,
                |r: ReadRecord| r.col == col,
                |r: ReadRecord| (r.sample.bloom_memtable_hit_count + r.sample.bloom_memtable_miss_count) as nat,
            )
            &&& m.bloom_sst.hits == sum_of_reads(
                reads,
                |r: ReadRecord| r.col == col,
                |r: ReadRecord| (r.sample.bloom_sst_hit_count + r.sample.bloom_sst_miss_count) as nat,
            )
            &&& m.bloom_sst.count == sum_of_reads(
                reads,
                |r: ReadRecord| r.col == col,
                |r: ReadRecord| (r.sample.bloom_sst_hit_count + r.sample.bloom_sst_miss_count) as nat,
            )
            &&& m.block_cache.miss == 0
            &&& m.bloom_sst.miss == 0
            &&& m.overall == tally_of(
                samples_of_reads(reads, |r: ReadRecord| r.col == col, |r: ReadRecord| r.nanos),
            )
        }),
    decreases reads.len(),
{
    if reads.len() > 0 {
        let rest = reads.drop_last();
        law_reads_add_up(rest, col);
        if exists|i: int| 0 <= i < rest.len() && (#[trigger] rest[i]).col == col {
            let i = choose|i: int| 0 <= i < rest.len() && (#[trigger] rest[i]).col == col;
            assert(reads[i].col == col);
        }
        if exists|i: int| 0 <= i < reads.len() && (#[trigger] reads[i]).col == col {
            let i = choose|i: int| 0 <= i < reads.len() && (#[trigger] reads[i]).col == col;
            if i < rest.len() {
                assert(rest[i].col == col);
            }
        }
        if reads.last().col == col {
            assert(reads[reads.len() - 1].col == col);
            let samples = samples_of_reads(
                reads,
                |r: ReadRecord| r.col == col,
                |r: ReadRecord| r.nanos,
            );
            assert(samples.drop_last() =~= samples_of_reads(
                rest,
                |r: ReadRecord| r.col == col,
                |r: ReadRecord| r.nanos,
            ));
        }
    }
}

/// The tally of a number of blocks holds what the reads of the column that read so many blocks
/// add up to, and there is one exactly where there was such a read.
pub proof fn law_reads_add_up_per_blocks(reads: Seq<ReadRecord>, col: DBCol, blocks: usize)
    ensures
        ({
            let m = measured(recorded(reads), col);
            let t = m.tally(blocks);
            let meant = |r: ReadRecord| r.col == col && r.sample.block_read_count as usize == blocks;
            let time = |r: ReadRecord| r.sample.block_read_time as nat;
            &&& m.per_block_reads.contains_key(blocks) <==> sum_of_reads(
                reads,
                meant,
                |r: ReadRecord| 1nat,
            ) > 0
            &&& t.samples == sum_of_reads(reads, meant, |r: ReadRecord| 1nat)
            &&& t.total_nanos == sum_of_reads(reads, meant, time)
            &&& t.samples_with_merge == sum_of_reads(
                reads,
                meant,
                |r: ReadRecord|
                    if r.sample.merge_operator_time_nanos > 0 {
                        1nat
                    } else {
                        0
                    },
            )
            &&& t == tally_of(samples_of_reads(reads, meant, time))
        }),
    decreases reads.len(),
{
    if reads.len() > 0 {
        let rest = reads.drop_last();
        law_reads_add_up_per_blocks(rest, col, blocks);
        let meant = |r: ReadRecord| r.col == col && r.sample.block_read_count as usize == blocks;
        let time = |r: ReadRecord| r.sample.block_read_time as nat;
        if meant(reads.last()) {
            let samples = samples_of_reads(reads, meant, time);
            assert(samples.drop_last() =~= samples_of_reads(rest, meant, time));
        }
    }
}

/// Only the range of the machine types limits what can be recorded: consistent measurements have
/// room for one more read exactly where each sum stays in range.
pub proof fn law_room_up_to_the_range_of_types(
    m: ColumnMeasurementView,
    sample: PerfSample,
    nanos: nat,
)
    requires
        m.consistent(),
    ensures
        m.has_room(sample, nanos) <==> {
            let blocks = sample.block_read_count as usize;
            &&& m.overall.samples < usize::MAX
            &&& m.overall.total_nanos + nanos <= 18_446_744_073_709_551_615_999_999_999
            &&& m.tally(blocks).total_nanos + sample.block_read_time
                <= 18_446_744_073_709_551_615_999_999_999
            &&& m.block_cache.count + sample.block_cache_hit_count <= u64::MAX
            &&& m.bloom_mem.count + sample.bloom_memtable_hit_count
                + sample.bloom_memtable_miss_count <= u64::MAX
            &&& m.bloom_sst.count + sample.bloom_sst_hit_count + sample.bloom_sst_miss_count
                <= u64::MAX
        },
{
    law_tally_within_overall(m, sample.blocks());
    if m.per_block_reads.contains_key(sample.blocks()) {
        assert(m.per_block_reads[sample.blocks()].consistent());
    }
}

/// An average can be taken of any number of samples whose lowest 32 bits are not all zero, and
/// of no other. It is the total divided by the number that those bits make.
pub proof fn law_average_of_counted_samples(t: MeasurementsView)
    requires
        t.samples <= u64::MAX,
    ensures
        t.has_average() <==> t.samples % 0x1_0000_0000 != 0,
        0 < t.samples < 0x1_0000_0000 ==> t.average() == t.total_nanos / t.samples,
        t.has_average() ==> t.average() == t.total_nanos / (t.samples % 0x1_0000_0000),
{
    let n = t.samples as u64;
    assert(n as u32 == n % 0x1_0000_0000) by (bit_vector);
}

} // verus!
