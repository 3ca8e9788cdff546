//! With what a database is opened.
use vstd::prelude::*;

use crate::column::{
    col_name, column_family_text, law_column_family_names_differ, variant_text, DBCol,
};
use crate::number::decimal;
use crate::options::{
    column_settings, compresses, db_settings, law_column_has_its_own_cache, law_data_is_compressed,
    law_refcounts_merged_in_hot_rc_columns_only, rocksdb_column_options, rocksdb_options,
    ColumnProfile, Mode, Options, Setting, StoreConfig, Temperature,
};

verus! {

/// A column family to open: its name and its options.
#[derive(Debug, PartialEq, Eq)]
pub struct CfDescriptor {
    pub name: &'static str,
    pub options: Options,
}

/// Everything with which a database is opened, but for where it is.
#[derive(Debug, PartialEq, Eq)]
pub struct OpenPlan {
    pub options: Options,
    pub read_only: bool,
    pub descriptors: Vec<CfDescriptor>,
}

/// `descriptor` is the column family of a column with the given profile.
pub open spec fn describes(
    descriptor: CfDescriptor,
    col: DBCol,
    profile: ColumnProfile,
    store_config: StoreConfig,
    temp: Temperature,
) -> bool {
    &&& descriptor.name@ == column_family_text(col)
    &&& descriptor.options@ == column_settings(profile, store_config, temp)
}

/// The column families of `columns`, of which `profiles` holds the profiles.
pub fn cf_descriptors(
    columns: &Vec<DBCol>,
    profiles: &Vec<ColumnProfile>,
    store_config: &StoreConfig,
    temp: Temperature,
) -> (r: Vec<CfDescriptor>)
    requires
        profiles@.len() == columns@.len(),
        store_config.block_size <= usize::MAX,
        forall|i: int| 0 <= i < profiles@.len() ==> (#[trigger] profiles@[i]).cache_size
            <= usize::MAX,
    ensures
        r@.len() == columns@.len(),
        forall|i: int|
            0 <= i < r@.len() ==> describes(
                #[trigger] r@[i],
                columns@[i],
                profiles@[i],
                *store_config,
                temp,
            ),
{
    let mut out: Vec<CfDescriptor> = Vec::new();
    let mut i: usize = 0;
    while i < columns.len()
        invariant
            i <= columns.len(),
            profiles@.len() == columns@.len(),
            store_config.block_size <= usize::MAX,
            forall|j: int| 0 <= j < profiles@.len() ==> (#[trigger] profiles@[j]).cache_size
                <= usize::MAX,
            out@.len() == i,
            forall|j: int|
                0 <= j < i ==> describes(
                    #[trigger] out@[j],
                    columns@[j],
                    profiles@[j],
                    *store_config,
                    temp,
                ),
        decreases columns.len() - i,
    {
        let ghost before = out@;
        let options = rocksdb_column_options(&profiles[i], store_config, temp);
        out.push(CfDescriptor { name: col_name(columns[i]), options });
        assert forall|j: int| 0 <= j <= i implies describes(
            #[trigger] out@[j],
            columns@[j],
            profiles@[j],
            *store_config,
            temp,
        ) by {
            if j < i {
                assert(out@[j] == before[j]);
            }
        }
        i += 1;
    }
    out
}

/// With what to open a database with given column families configured.
///
/// `mode` specifies whether to open the database in read/write or read-only mode. In the latter
/// case, the database will not be created if it doesn't exist.
///
/// `temp` specifies whether the database is cold or hot which affects whether refcount merge
/// operator is configured on reference counted columns.
pub fn plan_open(
    store_config: &StoreConfig,
    mode: Mode,
    temp: Temperature,
    columns: &Vec<DBCol>,
    profiles: &Vec<ColumnProfile>,
    single_thread: bool,
) -> (r: OpenPlan)
    requires
        profiles@.len() == columns@.len(),
        store_config.block_size <= usize::MAX,
        forall|i: int| 0 <= i < profiles@.len() ==> (#[trigger] profiles@[i]).cache_size
            <= usize::MAX,
    ensures
        exists|cpus: usize|
            cpus >= 1 && r.options@ == db_settings(*store_config, mode, single_thread, cpus),
        r.read_only == (mode == Mode::ReadOnly),
        r.descriptors@.len() == columns@.len(),
        forall|i: int|
            0 <= i < r.descriptors@.len() ==> describes(
                #[trigger] r.descriptors@[i],
                columns@[i],
                profiles@[i],
                *store_config,
                temp,
            ),
{
    let options = rocksdb_options(store_config, mode, single_thread);
    let descriptors = cf_descriptors(columns, profiles, store_config, temp);
    OpenPlan { options, read_only: mode.read_only(), descriptors }
}

/// The column families of different columns have different names.
pub proof fn law_families_do_not_share_names(
    a: CfDescriptor,
    b: CfDescriptor,
    col_a: DBCol,
    col_b: DBCol,
    profile_a: ColumnProfile,
    profile_b: ColumnProfile,
    store_config: StoreConfig,
    temp: Temperature,
)
    requires
        describes(a, col_a, profile_a, store_config, temp),
        describes(b, col_b, profile_b, store_config, temp),
        col_a != col_b,
    ensures
        a.name@ != b.name@,
{
    law_column_family_names_differ(col_a, col_b);
}

/// A column family is opened under the name of its column, with a cache of the size that is
/// configured for the column, and merges reference counts where the database is hot and the
/// column reference counted.
pub proof fn law_family_fits_its_column(
    descriptor: CfDescriptor,
    col: DBCol,
    profile: ColumnProfile,
    store_config: StoreConfig,
    temp: Temperature,
)
    requires
        describes(descriptor, col, profile, store_config, temp),
        store_config.block_size <= usize::MAX,
        profile.cache_size <= usize::MAX,
    ensures
        col.ordinal() < 50 ==> descriptor.name@ == "col"@ + decimal(col.ordinal()),
        col.ordinal() >= 50 ==> descriptor.name@ == variant_text(col),
        descriptor.options@.contains(Setting::RefcountMergeOperator) <==> temp == Temperature::Hot
            && profile.is_rc,
        descriptor.options@.contains(Setting::EmptyValueCompactionFilter) <==> temp
            == Temperature::Hot && profile.is_rc,
        exists|i: int|
            {
                &&& 0 <= i < descriptor.options@.len()
                &&& #[trigger] descriptor.options@[i] matches Setting::BlockBasedTableFactory(blocks)
                &&& blocks.block_size == store_config.block_size
                &&& blocks.lru_cache_size == profile.cache_size
            },
        compresses(descriptor.options@),
{
    law_refcounts_merged_in_hot_rc_columns_only(profile, store_config, temp);
    law_column_has_its_own_cache(profile, store_config, temp);
    law_data_is_compressed(store_config, Mode::ReadOnly, true, 1, profile, temp);
}

} // verus!
