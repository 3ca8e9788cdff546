use near_store::column::DBCol;
use near_store::open::plan_open;
use near_store::options::{
    rocksdb_block_based_options, rocksdb_column_options, rocksdb_options, rocksdb_options_for_cpus,
    set_compression_options, BlockBasedOptions, ColumnProfile, Compression, Mode, Options, Setting,
    StoreConfig, Temperature,
};

const CONFIG: StoreConfig =
    StoreConfig { max_open_files: 10_000, enable_statistics: true, block_size: 16_384 };

fn compression() -> Vec<Setting> {
    vec![
        Setting::CompressionType(Compression::Lz4),
        Setting::BottommostCompressionType(Compression::Zstd),
        Setting::BottommostCompressionOptions {
            window_bits: -14,
            compression_level: 32767,
            compression_strategy: 0,
            max_dict_bytes: 32768,
            enabled: true,
        },
        Setting::BottommostZstdMaxTrainBytes { value: 3276800, enabled: true },
    ]
}

#[test]
fn compression_is_added_to_other_settings() {
    let mut opts = Options::default();
    opts.set(Setting::UseFsync(true));
    set_compression_options(&mut opts);
    assert_eq!(opts.settings[0], Setting::UseFsync(true));
    assert_eq!(opts.settings[1..], compression()[..]);
}

#[test]
fn options_for_writing() {
    let opts = rocksdb_options_for_cpus(&CONFIG, Mode::ReadWrite, false, 9);
    let mut expected = compression();
    expected.append(&mut vec![
        Setting::CreateMissingColumnFamilies(true),
        Setting::CreateIfMissing(true),
        Setting::UseFsync(false),
        Setting::MaxOpenFiles(10_000),
        Setting::KeepLogFileNum(1),
        Setting::BytesPerSync(1_048_576),
        Setting::WriteBufferSize(268_435_456),
        Setting::MaxBytesForLevelBase(268_435_456),
        Setting::IncreaseParallelism(4),
        Setting::MaxTotalWalSize(1_073_741_824),
        Setting::EnableStatistics,
        Setting::StatsPersistPeriodSec(0),
        Setting::StatsDumpPeriodSec(0),
    ]);
    assert_eq!(opts.settings, expected);
}

#[test]
fn options_without_threads() {
    let config = StoreConfig { enable_statistics: false, ..CONFIG };
    let opts = rocksdb_options(&config, Mode::ReadWriteExisting, true);
    assert_eq!(
        opts.settings[12..],
        [
            Setting::DisableAutoCompactions(true),
            Setting::MaxBackgroundJobs(0),
            Setting::StatsDumpPeriodSec(0),
            Setting::StatsPersistPeriodSec(0),
            Setting::LevelZeroSlowdownWritesTrigger(-1),
            Setting::LevelZeroFileNumCompactionTrigger(-1),
            Setting::LevelZeroStopWritesTrigger(100000000),
        ]
    );
    assert!(opts.settings.contains(&Setting::CreateMissingColumnFamilies(true)));
    assert!(opts.settings.contains(&Setting::CreateIfMissing(false)));
}

#[test]
fn options_for_reading_leave_the_database_alone() {
    let opts = rocksdb_options_for_cpus(&CONFIG, Mode::ReadOnly, false, 1);
    assert!(opts.settings.contains(&Setting::CreateMissingColumnFamilies(false)));
    assert!(opts.settings.contains(&Setting::CreateIfMissing(false)));
    assert!(!opts.settings.contains(&Setting::EnableStatistics));
    assert!(opts.settings.contains(&Setting::IncreaseParallelism(1)));
}

#[test]
fn half_of_the_cpus_are_used() {
    let opts = rocksdb_options(&CONFIG, Mode::Create, false);
    let cpus = num_cpus::get();
    let expected = std::cmp::max(1, cpus as i32 / 2);
    assert!(opts.settings.contains(&Setting::IncreaseParallelism(expected)));
    assert_eq!(opts, rocksdb_options_for_cpus(&CONFIG, Mode::Create, false, cpus));
}

#[test]
fn few_or_odd_numbers_of_cpus() {
    for cpus in [0usize, 1, 2, 3, 7, 64, 0x8000_0000, 0x1_0000_0006] {
        let opts = rocksdb_options_for_cpus(&CONFIG, Mode::Create, false, cpus);
        let expected = std::cmp::max(1, cpus as i32 / 2);
        assert!(opts.settings.contains(&Setting::IncreaseParallelism(expected)));
    }
}

#[test]
fn open_files_are_limited_to_signed_numbers() {
    for (limit, expected) in [(0, 0), (0x7fff_ffff, i32::MAX), (0x8000_0000, i32::MAX)] {
        let config = StoreConfig { max_open_files: limit, ..CONFIG };
        let opts = rocksdb_options_for_cpus(&config, Mode::ReadOnly, false, 1);
        assert!(opts.settings.contains(&Setting::MaxOpenFiles(expected)));
    }
}

#[test]
fn modes() {
    for (mode, read_only, can_create) in [
        (Mode::ReadOnly, true, false),
        (Mode::ReadWriteExisting, false, false),
        (Mode::ReadWrite, false, true),
        (Mode::Create, false, true),
    ] {
        assert_eq!(mode.read_only(), read_only);
        assert_eq!(mode.read_write(), !read_only);
        assert_eq!(mode.can_create(), can_create);
    }
}

const BLOCKS: BlockBasedOptions = BlockBasedOptions {
    block_size: 16_384,
    lru_cache_size: 33_554_432,
    pin_l0_filter_and_index_blocks_in_cache: true,
    cache_index_and_filter_blocks: true,
    bloom_bits_per_key: 10,
    bloom_block_based: true,
};

#[test]
fn tables_of_blocks() {
    assert_eq!(rocksdb_block_based_options(16_384, 33_554_432), BLOCKS);
}

#[test]
fn options_of_columns() {
    for (is_rc, temp, merged) in [
        (true, Temperature::Hot, true),
        (false, Temperature::Hot, false),
        (true, Temperature::Cold, false),
        (false, Temperature::Cold, false),
    ] {
        let profile = ColumnProfile { is_rc, cache_size: 33_554_432 };
        let mut expected = compression();
        expected.append(&mut vec![
            Setting::LevelCompactionDynamicLevelBytes(true),
            Setting::BlockBasedTableFactory(BLOCKS),
            Setting::OptimizeLevelStyleCompaction(134_217_728),
            Setting::TargetFileSizeBase(67_108_864),
        ]);
        if merged {
            expected.push(Setting::RefcountMergeOperator);
            expected.push(Setting::EmptyValueCompactionFilter);
        }
        assert_eq!(rocksdb_column_options(&profile, &CONFIG, temp).settings, expected);
    }
}

#[test]
fn a_plan_has_a_family_for_each_column() {
    let columns = vec![DBCol::FlatState, DBCol::State];
    let profiles = vec![
        ColumnProfile { is_rc: false, cache_size: 1 },
        ColumnProfile { is_rc: true, cache_size: 2 },
    ];
    let plan = plan_open(&CONFIG, Mode::ReadOnly, Temperature::Hot, &columns, &profiles, true);
    assert!(plan.read_only);
    assert_eq!(plan.options, rocksdb_options(&CONFIG, Mode::ReadOnly, true));
    assert_eq!(plan.descriptors.len(), 2);
    for (descriptor, (name, profile)) in
        plan.descriptors.iter().zip([("FlatState", &profiles[0]), ("col5", &profiles[1])])
    {
        assert_eq!(descriptor.name, name);
        assert_eq!(
            descriptor.options,
            rocksdb_column_options(profile, &CONFIG, Temperature::Hot)
        );
    }
    let plan = plan_open(&CONFIG, Mode::Create, Temperature::Cold, &vec![], &vec![], true);
    assert!(!plan.read_only);
    assert!(plan.descriptors.is_empty());
}
