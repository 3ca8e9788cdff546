//! The options with which the database and its column families are opened.
//!
//! Options are modelled as the list of the settings that are made, in the order in which they
//! are made. What is not set keeps the database's default; where two settings bear on the same
//! thing, the later one counts.
use vstd::prelude::*;

verus! {

/// How a database is opened.
#[derive(Clone, Copy, Debug, PartialEq, Eq, Structural)]
pub enum Mode {
    /// For reading only. The database has to exist.
    ReadOnly,
    /// For reading and writing. The database has to exist.
    ReadWriteExisting,
    /// For reading and writing. The database is created if it does not exist.
    ReadWrite,
    /// For reading and writing, as a new database.
    Create,
}

impl Mode {
    /// Whether the database is opened for reading only.
    pub fn read_only(self) -> (r: bool)
        ensures
            r == (self == Mode::ReadOnly),
    {
        self == Mode::ReadOnly
    }

    /// Whether the database is opened for writing too.
    pub fn read_write(self) -> (r: bool)
        ensures
            r == (self != Mode::ReadOnly),
    {
        !self.read_only()
    }

    /// Whether the database may be created.
    pub open spec fn creates(self) -> bool {
        self == Mode::ReadWrite || self == Mode::Create
    }

    /// Whether the database may be created.
    pub fn can_create(self) -> (r: bool)
        ensures
            r == self.creates(),
    {
        self == Mode::ReadWrite || self == Mode::Create
    }
}

/// Whether a database holds the data in current use or the archive.
#[derive(Clone, Copy, Debug, PartialEq, Eq, Structural)]
pub enum Temperature {
    Hot,
    Cold,
}

/// Configuration of the store, as far as the options depend on it.
#[derive(Clone, Copy, Debug, PartialEq, Eq)]
pub struct StoreConfig {
    /// Limit of open files.
    pub max_open_files: u32,
    /// Whether to collect statistics.
    pub enable_statistics: bool,
    /// Size of a block, in bytes.
    pub block_size: u64,
}

/// What the options of a column family depend on.
#[derive(Clone, Copy, Debug, PartialEq, Eq)]
pub struct ColumnProfile {
    /// Whether the values of the column are reference counted.
    pub is_rc: bool,
    /// Size of the cache of blocks of the column, in bytes.
    pub cache_size: u64,
}

/// An algorithm of compression.
#[derive(Clone, Copy, Debug, PartialEq, Eq, Structural)]
pub enum Compression {
    Lz4,
    Zstd,
}

/// How tables of blocks are laid out and cached.
#[derive(Clone, Copy, Debug, PartialEq, Eq, Structural)]
pub struct BlockBasedOptions {
    pub block_size: usize,
    pub lru_cache_size: usize,
    pub pin_l0_filter_and_index_blocks_in_cache: bool,
    pub cache_index_and_filter_blocks: bool,
    pub bloom_bits_per_key: u32,
    pub bloom_block_based: bool,
}

/// One setting of the database or of a column family.
#[derive(Clone, Copy, Debug, PartialEq, Eq, Structural)]
pub enum Setting {
    CompressionType(Compression),
    BottommostCompressionType(Compression),
    BottommostCompressionOptions {
        window_bits: i32,
        compression_level: i32,
        compression_strategy: i32,
        max_dict_bytes: i32,
        enabled: bool,
    },
    BottommostZstdMaxTrainBytes { value: i32, enabled: bool },
    CreateMissingColumnFamilies(bool),
    CreateIfMissing(bool),
    UseFsync(bool),
    MaxOpenFiles(i32),
    KeepLogFileNum(usize),
    BytesPerSync(u64),
    WriteBufferSize(usize),
    MaxBytesForLevelBase(u64),
    DisableAutoCompactions(bool),
    MaxBackgroundJobs(i32),
    StatsDumpPeriodSec(u32),
    StatsPersistPeriodSec(u32),
    LevelZeroSlowdownWritesTrigger(i32),
    LevelZeroFileNumCompactionTrigger(i32),
    LevelZeroStopWritesTrigger(i32),
    IncreaseParallelism(i32),
    MaxTotalWalSize(u64),
    EnableStatistics,
    LevelCompactionDynamicLevelBytes(bool),
    BlockBasedTableFactory(BlockBasedOptions),
    OptimizeLevelStyleCompaction(usize),
    TargetFileSizeBase(u64),
    /// The merge operator that adds reference counts.
    RefcountMergeOperator,
    /// The compaction filter that drops empty values.
    EmptyValueCompactionFilter,
}

/// Settings, in the order in which they are made.
#[derive(Debug, PartialEq, Eq)]
pub struct Options {
    pub settings: Vec<Setting>,
}

impl View for Options {
    type V = Seq<Setting>;

    open spec fn view(&self) -> Seq<Setting> {
        self.settings@
    }
}

impl Default for Options {
    fn default() -> (r: Self)
        ensures
            r@ == Seq::<Setting>::empty(),
    {
        Options { settings: Vec::new() }
    }
}

impl Options {
    /// Makes one more setting.
    pub fn set(&mut self, setting: Setting)
        ensures
            final(self)@ == old(self)@.push(setting),
    {
        self.settings.push(setting);
    }
}

/// The bytes in a mebibyte.
pub const MIB: u64 = 1_048_576;

/// The bytes in a gibibyte.
pub const GIB: u64 = 1_073_741_824;

/// `bytesize::mib` gives the number of bytes in `n` mebibytes: `n` times 1,048,576. It
/// multiplies in 64 bits, so the product has to fit.
#[verifier::external_body]
fn mib(n: u64) -> (r: u64)
    requires
        n * MIB <= u64::MAX,
    ensures
        r == n * MIB,
{
    bytesize::mib(n)
}

/// `bytesize::gib` gives the number of bytes in `n` gibibytes: `n` times 1,073,741,824. It
/// multiplies in 64 bits, so the product has to fit.
#[verifier::external_body]
fn gib(n: u64) -> (r: u64)
    requires
        n * GIB <= u64::MAX,
    ensures
        r == n * GIB,
{
    bytesize::gib(n)
}

/// `num_cpus::get` gives the number of CPUs that are available, which is at least one. It
/// depends on the machine and on what the process may use of it: nothing else is claimed.
#[verifier::external_body]
fn available_cpus() -> (r: usize)
    ensures
        r >= 1,
{
    num_cpus::get()
}

/// The settings of compression.
pub open spec fn compression_settings() -> Seq<Setting> {
    let dict_size = 2 * 16384;
    seq![
        Setting::CompressionType(Compression::Lz4),
        Setting::BottommostCompressionType(Compression::Zstd),
        Setting::BottommostCompressionOptions {
            window_bits: (-14) as i32,
            compression_level: 32767,
            compression_strategy: 0,
            max_dict_bytes: dict_size as i32,
            enabled: true,
        },
        Setting::BottommostZstdMaxTrainBytes { value: (dict_size * 100) as i32, enabled: true },
    ]
}

/// How many threads the database may use: half of the CPUs, counted in 32 bits, but at least
/// one.
pub open spec fn parallelism(cpus: usize) -> i32 {
    let n = cpus as i32;
    if n >= 2 {
        (n / 2) as i32
    } else {
        1
    }
}

/// The settings that decide on what runs in the background.
pub open spec fn background_settings(single_thread: bool, cpus: usize) -> Seq<Setting> {
    if single_thread {
        seq![
            Setting::DisableAutoCompactions(true),
            Setting::MaxBackgroundJobs(0),
            Setting::StatsDumpPeriodSec(0),
            Setting::StatsPersistPeriodSec(0),
            Setting::LevelZeroSlowdownWritesTrigger((-1) as i32),
            Setting::LevelZeroFileNumCompactionTrigger((-1) as i32),
            Setting::LevelZeroStopWritesTrigger(100000000),
        ]
    } else {
        seq![Setting::IncreaseParallelism(parallelism(cpus)), Setting::MaxTotalWalSize(GIB)]
    }
}

/// The settings that decide on statistics: they are collected where they are asked for and the
/// database is open for writing, and are not written to files.
pub open spec fn statistics_settings(store_config: StoreConfig, mode: Mode) -> Seq<Setting> {
    if mode != Mode::ReadOnly && store_config.enable_statistics {
        seq![
            Setting::EnableStatistics,
            Setting::StatsPersistPeriodSec(0),
            Setting::StatsDumpPeriodSec(0),
        ]
    } else {
        Seq::empty()
    }
}

/// The limit of open files as a signed number.
pub open spec fn open_files(store_config: StoreConfig) -> i32 {
    if store_config.max_open_files <= i32::MAX {
        store_config.max_open_files as i32
    } else {
        i32::MAX
    }
}

/// The settings of the database.
pub open spec fn db_settings(
    store_config: StoreConfig,
    mode: Mode,
    single_thread: bool,
    cpus: usize,
) -> Seq<Setting> {
    compression_settings() + seq![
        Setting::CreateMissingColumnFamilies(mode != Mode::ReadOnly),
        Setting::CreateIfMissing(mode.creates()),
        Setting::UseFsync(false),
        Setting::MaxOpenFiles(open_files(store_config)),
        Setting::KeepLogFileNum(1),
        Setting::BytesPerSync(MIB),
        Setting::WriteBufferSize((256 * MIB) as usize),
        Setting::MaxBytesForLevelBase((256 * MIB) as u64),
    ] + background_settings(single_thread, cpus) + statistics_settings(store_config, mode)
}

/// The layout of the tables of a column.
pub open spec fn block_based_settings(block_size: u64, cache_size: u64) -> BlockBasedOptions {
    BlockBasedOptions {
        block_size: block_size as usize,
        lru_cache_size: cache_size as usize,
        pin_l0_filter_and_index_blocks_in_cache: true,
        cache_index_and_filter_blocks: true,
        bloom_bits_per_key: 10,
        bloom_block_based: true,
    }
}

/// The settings of reference counting, for the columns that need them.
pub open spec fn refcount_settings(profile: ColumnProfile, temp: Temperature) -> Seq<Setting> {
    if temp == Temperature::Hot && profile.is_rc {
        seq![Setting::RefcountMergeOperator, Setting::EmptyValueCompactionFilter]
    } else {
        Seq::empty()
    }
}

/// The settings of a column family.
pub open spec fn column_settings(
    profile: ColumnProfile,
    store_config: StoreConfig,
    temp: Temperature,
) -> Seq<Setting> {
    compression_settings() + seq![
        Setting::LevelCompactionDynamicLevelBytes(true),
        Setting::BlockBasedTableFactory(
            block_based_settings(store_config.block_size, profile.cache_size),
        ),
        Setting::OptimizeLevelStyleCompaction((128 * MIB) as usize),
        Setting::TargetFileSizeBase((64 * MIB) as u64),
    ] + refcount_settings(profile, temp)
}

/// Sets how data is compressed: quickly, and with a trained dictionary at the last level.
pub fn set_compression_options(opts: &mut Options)
    ensures
        final(opts)@ == old(opts)@ + compression_settings(),
{
    opts.set(Setting::CompressionType(Compression::Lz4));
    opts.set(Setting::BottommostCompressionType(Compression::Zstd));
    // RocksDB documentation says that 16KB is a typical dictionary size. The dictionary size has
    // been tuned to twice of that. Having train data size x100 from dictionary size is a
    // recommendation from RocksDB.
    let dict_size: i32 = 2 * 16384;
    let max_train_bytes: i32 = dict_size * 100;
    // Default parameters of RocksDB: window_bits and compression_strategy are specific to Zlib
    // and unused, compression_level 32767 is the default level of ZSTD.
    opts.set(
        Setting::BottommostCompressionOptions {
            window_bits: -14,
            compression_level: 32767,
            compression_strategy: 0,
            max_dict_bytes: dict_size,
            enabled: true,
        },
    );
    opts.set(Setting::BottommostZstdMaxTrainBytes { value: max_train_bytes, enabled: true });
    assert(opts@ =~= old(opts)@ + compression_settings());
}

/// DB level options
///
/// `single_thread` asks for a database without threads of its own.
pub fn rocksdb_options(store_config: &StoreConfig, mode: Mode, single_thread: bool) -> (r: Options)
    ensures
        exists|cpus: usize| cpus >= 1 && r@ == db_settings(*store_config, mode, single_thread, cpus),
{
    let cpus: usize = if single_thread {
        1
    } else {
        available_cpus()
    };
    rocksdb_options_for_cpus(store_config, mode, single_thread, cpus)
}

/// DB level options for a machine with `cpus` CPUs.
pub fn rocksdb_options_for_cpus(
    store_config: &StoreConfig,
    mode: Mode,
    single_thread: bool,
    cpus: usize,
) -> (r: Options)
    ensures
        r@ == db_settings(*store_config, mode, single_thread, cpus),
{
    let mut opts = Options::default();
    set_compression_options(&mut opts);
    opts.set(Setting::CreateMissingColumnFamilies(mode.read_write()));
    opts.set(Setting::CreateIfMissing(mode.can_create()));
    opts.set(Setting::UseFsync(false));
    let max_open_files: i32 = if store_config.max_open_files <= 0x7fff_ffff {
        store_config.max_open_files as i32
    } else {
        i32::MAX
    };
    opts.set(Setting::MaxOpenFiles(max_open_files));
    opts.set(Setting::KeepLogFileNum(1));
    opts.set(Setting::BytesPerSync(mib(1)));
    opts.set(Setting::WriteBufferSize(mib(256) as usize));
    opts.set(Setting::MaxBytesForLevelBase(mib(256)));

    if single_thread {
        opts.set(Setting::DisableAutoCompactions(true));
        opts.set(Setting::MaxBackgroundJobs(0));
        opts.set(Setting::StatsDumpPeriodSec(0));
        opts.set(Setting::StatsPersistPeriodSec(0));
        opts.set(Setting::LevelZeroSlowdownWritesTrigger(-1));
        opts.set(Setting::LevelZeroFileNumCompactionTrigger(-1));
        opts.set(Setting::LevelZeroStopWritesTrigger(100000000));
    } else {
        let n: i32 = cpus as i32;
        opts.set(Setting::IncreaseParallelism(if n >= 2 { n / 2 } else { 1 }));
        opts.set(Setting::MaxTotalWalSize(gib(1)));
    }

    if mode.read_write() && store_config.enable_statistics {
        // The level of statistics cannot be chosen. The default collects all but the time spent
        // on compression and inside locks.
        opts.set(Setting::EnableStatistics);
        // Statistics are exported as metrics, so there is no need to write them to files.
        opts.set(Setting::StatsPersistPeriodSec(0));
        opts.set(Setting::StatsDumpPeriodSec(0));
    }
    assert(opts@ =~= db_settings(*store_config, mode, single_thread, cpus));
    opts
}

/// Options of the tables of a column, with a cache of its own.
pub fn rocksdb_block_based_options(block_size: u64, cache_size: u64) -> (r: BlockBasedOptions)
    requires
        block_size <= usize::MAX,
        cache_size <= usize::MAX,
    ensures
        r == block_based_settings(block_size, cache_size),
{
    BlockBasedOptions {
        block_size: block_size as usize,
        lru_cache_size: cache_size as usize,
        pin_l0_filter_and_index_blocks_in_cache: true,
        cache_index_and_filter_blocks: true,
        bloom_bits_per_key: 10,
        bloom_block_based: true,
    }
}

/// Options of a column family.
pub fn rocksdb_column_options(
    profile: &ColumnProfile,
    store_config: &StoreConfig,
    temp: Temperature,
) -> (r: Options)
    requires
        store_config.block_size <= usize::MAX,
        profile.cache_size <= usize::MAX,
    ensures
        r@ == column_settings(*profile, *store_config, temp),
{
    let mut opts = Options::default();
    set_compression_options(&mut opts);
    opts.set(Setting::LevelCompactionDynamicLevelBytes(true));
    opts.set(
        Setting::BlockBasedTableFactory(
            rocksdb_block_based_options(store_config.block_size, profile.cache_size),
        ),
    );
    // This changes many parameters at once, among them the size of write buffers and of files,
    // and the compression of each level. What is set after it overrides it.
    let memtable_memory_budget: usize = mib(128) as usize;
    opts.set(Setting::OptimizeLevelStyleCompaction(memtable_memory_budget));
    opts.set(Setting::TargetFileSizeBase(mib(64)));
    if temp == Temperature::Hot && profile.is_rc {
        opts.set(Setting::RefcountMergeOperator);
        opts.set(Setting::EmptyValueCompactionFilter);
    }
    assert(opts@ =~= column_settings(*profile, *store_config, temp));
    opts
}

/// A database that is opened for reading only is not created, gets no new column families, and
/// collects no statistics.
pub proof fn law_read_only_leaves_database_alone(
    store_config: StoreConfig,
    single_thread: bool,
    cpus: usize,
)
    ensures
        ({
            let settings = db_settings(store_config, Mode::ReadOnly, single_thread, cpus);
            &&& !settings.contains(Setting::CreateIfMissing(true))
            &&& !settings.contains(Setting::CreateMissingColumnFamilies(true))
            &&& !settings.contains(Setting::EnableStatistics)
            &&& settings.contains(Setting::CreateIfMissing(false))
            &&& settings.contains(Setting::CreateMissingColumnFamilies(false))
        }),
{
    let settings = db_settings(store_config, Mode::ReadOnly, single_thread, cpus);
    assert(settings[4] == Setting::CreateMissingColumnFamilies(false));
    assert(settings[5] == Setting::CreateIfMissing(false));
}

/// Missing columns are created whenever the database is opened for writing.
pub proof fn law_writing_creates_missing_columns(
    store_config: StoreConfig,
    mode: Mode,
    single_thread: bool,
    cpus: usize,
)
    requires
        mode != Mode::ReadOnly,
    ensures
        db_settings(store_config, mode, single_thread, cpus).contains(
            Setting::CreateMissingColumnFamilies(true),
        ),
{
    let settings = db_settings(store_config, mode, single_thread, cpus);
    assert(settings[4] == Setting::CreateMissingColumnFamilies(true));
}

/// Reference counts are merged in the reference-counted columns of a hot database and nowhere
/// else, and wherever they are merged, empty values are dropped.
pub proof fn law_refcounts_merged_in_hot_rc_columns_only(
    profile: ColumnProfile,
    store_config: StoreConfig,
    temp: Temperature,
)
    ensures
        ({
            let settings = column_settings(profile, store_config, temp);
            let merged = temp == Temperature::Hot && profile.is_rc;
            &&& settings.contains(Setting::RefcountMergeOperator) <==> merged
            &&& settings.contains(Setting::EmptyValueCompactionFilter) <==> merged
        }),
{
    let settings = column_settings(profile, store_config, temp);
    if temp == Temperature::Hot && profile.is_rc {
        assert(settings[8] == Setting::RefcountMergeOperator);
        assert(settings[9] == Setting::EmptyValueCompactionFilter);
    }
}

/// `setting` is made, and no other setting of its kind is.
pub open spec fn made_once(
    settings: Seq<Setting>,
    setting: Setting,
    kind: spec_fn(Setting) -> bool,
) -> bool {
    exists|i: int|
        0 <= i < settings.len() && #[trigger] settings[i] == setting && forall|j: int|
            0 <= j < settings.len() && kind(#[trigger] settings[j]) ==> j == i
}

proof fn lemma_made_once(
    settings: Seq<Setting>,
    i: int,
    setting: Setting,
    kind: spec_fn(Setting) -> bool,
)
    requires
        0 <= i < settings.len(),
        settings[i] == setting,
        forall|j: int| 0 <= j < settings.len() && kind(#[trigger] settings[j]) ==> j == i,
    ensures
        made_once(settings, setting, kind),
{
}

/// Data is compressed with LZ4 and, at the last level, with Zstandard at its default level and
/// with a dictionary of 32 KiB that is trained on a hundred times as much.
pub open spec fn compresses(settings: Seq<Setting>) -> bool {
    &&& made_once(
            settings,
            Setting::CompressionType(Compression::Lz4),
            |s: Setting| s is CompressionType,
        )
    &&& made_once(
            settings,
            Setting::BottommostCompressionType(Compression::Zstd),
            |s: Setting| s is BottommostCompressionType,
        )
    &&& made_once(
            settings,
            Setting::BottommostCompressionOptions {
                window_bits: (-14) as i32,
                compression_level: 32767,
                compression_strategy: 0,
                max_dict_bytes: 32768,
                enabled: true,
            },
            |s: Setting| s is BottommostCompressionOptions,
        )
    &&& made_once(
            settings,
            Setting::BottommostZstdMaxTrainBytes { value: 3_276_800, enabled: true },
            |s: Setting| s is BottommostZstdMaxTrainBytes,
        )
}

proof fn lemma_compresses(settings: Seq<Setting>)
    requires
        settings.len() >= 4,
        settings.take(4) == compression_settings(),
        forall|i: int|
            4 <= i < settings.len() ==> !(#[trigger] settings[i] is CompressionType) && !(
            settings[i] is BottommostCompressionType) && !(
            settings[i] is BottommostCompressionOptions) && !(
            settings[i] is BottommostZstdMaxTrainBytes),
    ensures
        compresses(settings),
{
    let first = settings.take(4);
    assert(first[0] == settings[0] && first[1] == settings[1] && first[2] == settings[2] && first[3]
        == settings[3]);
    lemma_made_once(settings, 0, Setting::CompressionType(Compression::Lz4), |s: Setting| s is CompressionType);
    lemma_made_once(settings, 1, Setting::BottommostCompressionType(Compression::Zstd), |s: Setting| s is BottommostCompressionType);
    lemma_made_once(settings, 2, Setting::BottommostCompressionOptions {
                window_bits: (-14) as i32,
                compression_level: 32767,
                compression_strategy: 0,
                max_dict_bytes: 32768,
                enabled: true,
            }, |s: Setting| s is BottommostCompressionOptions);
    lemma_made_once(settings, 3, Setting::BottommostZstdMaxTrainBytes { value: 3_276_800, enabled: true }, |s: Setting| s is BottommostZstdMaxTrainBytes);
}

/// The database and each of its column families compress their data, however they are
/// configured.
pub proof fn law_data_is_compressed(
    store_config: StoreConfig,
    mode: Mode,
    single_thread: bool,
    cpus: usize,
    profile: ColumnProfile,
    temp: Temperature,
)
    ensures
        compresses(db_settings(store_config, mode, single_thread, cpus)),
        compresses(column_settings(profile, store_config, temp)),
{
    let db = db_settings(store_config, mode, single_thread, cpus);
    let column = column_settings(profile, store_config, temp);
    assert(db.take(4) =~= compression_settings());
    assert(column.take(4) =~= compression_settings());
    lemma_compresses(db);
    lemma_compresses(column);
}

/// What every database is opened with, whatever the configuration: files are not synchronised on
/// every write, one log file is kept, and the sizes are those given. What is missing is created
/// as the mode allows. Nothing is set beyond this, compression, statistics and what runs in the
/// background.
pub proof fn law_database_settings(
    store_config: StoreConfig,
    mode: Mode,
    single_thread: bool,
    cpus: usize,
)
    ensures
        ({
            let settings = db_settings(store_config, mode, single_thread, cpus);
            &&& made_once(
                    settings,
                    Setting::CreateMissingColumnFamilies(mode != Mode::ReadOnly),
                    |s: Setting| s is CreateMissingColumnFamilies,
                )
            &&& made_once(
                    settings,
                    Setting::CreateIfMissing(mode == Mode::ReadWrite || mode == Mode::Create),
                    |s: Setting| s is CreateIfMissing,
                )
            &&& made_once(
                    settings,
                    Setting::UseFsync(false),
                    |s: Setting| s is UseFsync,
                )
            &&& made_once(
                    settings,
                    Setting::KeepLogFileNum(1),
                    |s: Setting| s is KeepLogFileNum,
                )
            &&& made_once(
                    settings,
                    Setting::BytesPerSync(1_048_576),
                    |s: Setting| s is BytesPerSync,
                )
            &&& made_once(
                    settings,
                    Setting::WriteBufferSize(268_435_456),
                    |s: Setting| s is WriteBufferSize,
                )
            &&& made_once(
                    settings,
                    Setting::MaxBytesForLevelBase(268_435_456),
                    |s: Setting| s is MaxBytesForLevelBase,
                )
            &&& settings.len() == 12 + (if single_thread {
                7int
            } else {
                2
            }) + (if mode != Mode::ReadOnly && store_config.enable_statistics {
                3int
            } else {
                0
            })
        }),
{
    let settings = db_settings(store_config, mode, single_thread, cpus);
    lemma_made_once(settings, 4, Setting::CreateMissingColumnFamilies(mode != Mode::ReadOnly), |s: Setting| s is CreateMissingColumnFamilies);
    lemma_made_once(settings, 5, Setting::CreateIfMissing(mode == Mode::ReadWrite || mode == Mode::Create), |s: Setting| s is CreateIfMissing);
    lemma_made_once(settings, 6, Setting::UseFsync(false), |s: Setting| s is UseFsync);
    lemma_made_once(settings, 8, Setting::KeepLogFileNum(1), |s: Setting| s is KeepLogFileNum);
    lemma_made_once(settings, 9, Setting::BytesPerSync(1_048_576), |s: Setting| s is BytesPerSync);
    lemma_made_once(settings, 10, Setting::WriteBufferSize(268_435_456), |s: Setting| s is WriteBufferSize);
    lemma_made_once(settings, 11, Setting::MaxBytesForLevelBase(268_435_456), |s: Setting| s is MaxBytesForLevelBase);
}

/// The limit of open files is set once: to the configured limit, or to the greatest that can be
/// set where the configured one is greater.
pub proof fn law_open_files_limited(
    store_config: StoreConfig,
    mode: Mode,
    single_thread: bool,
    cpus: usize,
    n: i32,
)
    requires
        db_settings(store_config, mode, single_thread, cpus).contains(Setting::MaxOpenFiles(n)),
    ensures
        made_once(
            db_settings(store_config, mode, single_thread, cpus),
            Setting::MaxOpenFiles(n),
            |s: Setting| s is MaxOpenFiles,
        ),
        0 <= n <= store_config.max_open_files,
        n < store_config.max_open_files ==> n == 0x7fff_ffff,
{
    let settings = db_settings(store_config, mode, single_thread, cpus);
    lemma_made_once(settings, 7, settings[7], |s: Setting| s is MaxOpenFiles);
}

/// The limit of open files is always set.
pub proof fn law_open_files_limit_is_set(
    store_config: StoreConfig,
    mode: Mode,
    single_thread: bool,
    cpus: usize,
)
    ensures
        exists|n: i32| #[trigger]
            db_settings(store_config, mode, single_thread, cpus).contains(
                Setting::MaxOpenFiles(n),
            ),
{
    let settings = db_settings(store_config, mode, single_thread, cpus);
    assert(settings[7] is MaxOpenFiles);
    assert(settings.contains(Setting::MaxOpenFiles(settings[7]->MaxOpenFiles_0)));
}

/// Statistics are collected exactly where the configuration asks for them and the database is
/// opened for writing, and wherever they are collected, they are not written to files. No period
/// of writing them to files is ever set to anything but none.
pub proof fn law_statistics_collected(
    store_config: StoreConfig,
    mode: Mode,
    single_thread: bool,
    cpus: usize,
)
    ensures
        ({
            let settings = db_settings(store_config, mode, single_thread, cpus);
            let collected = settings.contains(Setting::EnableStatistics);
            &&& collected <==> mode != Mode::ReadOnly && store_config.enable_statistics
            &&& collected ==> settings.contains(Setting::StatsPersistPeriodSec(0))
            &&& collected ==> settings.contains(Setting::StatsDumpPeriodSec(0))
            &&& forall|n: u32|
                #[trigger] settings.contains(Setting::StatsPersistPeriodSec(n)) ==> n == 0
            &&& forall|n: u32|
                #[trigger] settings.contains(Setting::StatsDumpPeriodSec(n)) ==> n == 0
        }),
{
    let settings = db_settings(store_config, mode, single_thread, cpus);
    let n = settings.len() as int;
    if mode != Mode::ReadOnly && store_config.enable_statistics {
        assert(settings[n - 3] == Setting::EnableStatistics);
        assert(settings[n - 2] == Setting::StatsPersistPeriodSec(0));
        assert(settings[n - 1] == Setting::StatsDumpPeriodSec(0));
    }
}

/// Without threads of its own, the database runs nothing in the background and never holds up
/// writes; otherwise it may use several threads and a write-ahead log of one gibibyte.
pub proof fn law_background_work(
    store_config: StoreConfig,
    mode: Mode,
    single_thread: bool,
    cpus: usize,
)
    ensures
        ({
            let settings = db_settings(store_config, mode, single_thread, cpus);
            &&& settings.contains(Setting::DisableAutoCompactions(true)) <==> single_thread
            &&& settings.contains(Setting::MaxBackgroundJobs(0)) <==> single_thread
            &&& settings.contains(Setting::LevelZeroSlowdownWritesTrigger((-1) as i32))
                <==> single_thread
            &&& settings.contains(Setting::LevelZeroFileNumCompactionTrigger((-1) as i32))
                <==> single_thread
            &&& settings.contains(Setting::LevelZeroStopWritesTrigger(100_000_000))
                <==> single_thread
            &&& single_thread ==> settings.contains(Setting::StatsDumpPeriodSec(0))
            &&& single_thread ==> settings.contains(Setting::StatsPersistPeriodSec(0))
            &&& settings.contains(Setting::MaxTotalWalSize(1_073_741_824)) <==> !single_thread
            &&& (exists|n: i32| #[trigger] settings.contains(Setting::IncreaseParallelism(n)))
                <==> !single_thread
        }),
{
    let settings = db_settings(store_config, mode, single_thread, cpus);
    if single_thread {
        assert(settings[12] == Setting::DisableAutoCompactions(true));
        assert(settings[13] == Setting::MaxBackgroundJobs(0));
        assert(settings[14] == Setting::StatsDumpPeriodSec(0));
        assert(settings[15] == Setting::StatsPersistPeriodSec(0));
        assert(settings[16] == Setting::LevelZeroSlowdownWritesTrigger((-1) as i32));
        assert(settings[17] == Setting::LevelZeroFileNumCompactionTrigger((-1) as i32));
        assert(settings[18] == Setting::LevelZeroStopWritesTrigger(100_000_000));
    } else {
        assert(settings[12] == Setting::IncreaseParallelism(parallelism(cpus)));
        assert(settings.contains(Setting::IncreaseParallelism(parallelism(cpus))));
        assert(settings[13] == Setting::MaxTotalWalSize(1_073_741_824));
    }
}

/// The database may use at least one thread. Of more than one CPU, as far as they can be
/// counted, it uses half, rounded down.
pub proof fn law_half_of_the_cpus_used(
    store_config: StoreConfig,
    mode: Mode,
    single_thread: bool,
    cpus: usize,
    n: i32,
)
    requires
        db_settings(store_config, mode, single_thread, cpus).contains(
            Setting::IncreaseParallelism(n),
        ),
    ensures
        n >= 1,
        cpus < 2 ==> n == 1,
        2 <= cpus <= 0x7fff_ffff ==> 2 * n <= cpus < 2 * n + 2,
{
}

/// A column family has one layout of tables: with blocks of the configured size, and with a cache
/// of the size that is configured for the column. Filters and indexes are kept in the cache, and
/// there are filters of ten bits per key.
pub proof fn law_column_has_its_own_cache(
    profile: ColumnProfile,
    store_config: StoreConfig,
    temp: Temperature,
)
    requires
        store_config.block_size <= usize::MAX,
        profile.cache_size <= usize::MAX,
    ensures
        ({
            let settings = column_settings(profile, store_config, temp);
            exists|i: int|
                {
                    &&& 0 <= i < settings.len()
                    &&& #[trigger] settings[i] matches Setting::BlockBasedTableFactory(blocks)
                    &&& blocks.block_size == store_config.block_size
                    &&& blocks.lru_cache_size == profile.cache_size
                    &&& blocks.pin_l0_filter_and_index_blocks_in_cache
                    &&& blocks.cache_index_and_filter_blocks
                    &&& blocks.bloom_bits_per_key == 10
                    &&& blocks.bloom_block_based
                    &&& forall|j: int|
                        0 <= j < settings.len() && #[trigger] settings[j] is BlockBasedTableFactory
                            ==> j == i
                }
        }),
{
    let settings = column_settings(profile, store_config, temp);
    assert(settings[5] is BlockBasedTableFactory);
}

/// A column family has levels of dynamic size and files of 64 MiB. That size is set after the
/// style of compaction, which would change it, with a budget of 128 MiB. Nothing is set beyond
/// this, compression, the layout of tables and reference counting.
pub proof fn law_column_compaction(
    profile: ColumnProfile,
    store_config: StoreConfig,
    temp: Temperature,
)
    ensures
        ({
            let settings = column_settings(profile, store_config, temp);
            &&& made_once(
                settings,
                Setting::LevelCompactionDynamicLevelBytes(true),
                |s: Setting| s is LevelCompactionDynamicLevelBytes,
            )
            &&& made_once(
                settings,
                Setting::OptimizeLevelStyleCompaction(134_217_728),
                |s: Setting| s is OptimizeLevelStyleCompaction,
            )
            &&& made_once(
                settings,
                Setting::TargetFileSizeBase(67_108_864),
                |s: Setting| s is TargetFileSizeBase,
            )
            &&& forall|i: int, j: int|
                0 <= i < settings.len() && 0 <= j < settings.len()
                    && #[trigger] settings[i] is OptimizeLevelStyleCompaction
                    && #[trigger] settings[j] is TargetFileSizeBase ==> i < j
            &&& settings.len() == 8 + (if temp == Temperature::Hot && profile.is_rc {
                2int
            } else {
                0
            })
        }),
{
    let settings = column_settings(profile, store_config, temp);
    lemma_made_once(
        settings,
        4,
        Setting::LevelCompactionDynamicLevelBytes(true),
        |s: Setting| s is LevelCompactionDynamicLevelBytes,
    );
    lemma_made_once(
        settings,
        6,
        Setting::OptimizeLevelStyleCompaction(134_217_728),
        |s: Setting| s is OptimizeLevelStyleCompaction,
    );
    lemma_made_once(
        settings,
        7,
        Setting::TargetFileSizeBase(67_108_864),
        |s: Setting| s is TargetFileSizeBase,
    );
}

} // verus!
