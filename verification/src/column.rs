//! The columns of the store and the names of their column families.
use vstd::prelude::*;

use crate::number::{decimal, lemma_decimal_injective};

verus! {

/// A column of the store. Each column lives in a column family of its own in the database.
///
/// The order of the variants is the order in which columns are listed.
#[derive(Clone, Copy, Debug, PartialEq, Eq, Hash, Structural)]
#[allow(non_camel_case_types)]
pub enum DBCol {
    DbVersion,
    BlockMisc,
    Block,
    BlockHeader,
    BlockHeight,
    State,
    ChunkExtra,
    _TransactionResult,
    OutgoingReceipts,
    IncomingReceipts,
    _Peers,
    EpochInfo,
    BlockInfo,
    Chunks,
    PartialChunks,
    BlocksToCatchup,
    StateDlInfos,
    ChallengedBlocks,
    StateHeaders,
    InvalidChunks,
    BlockExtra,
    BlockPerHeight,
    StateParts,
    EpochStart,
    AccountAnnouncements,
    NextBlockHashes,
    EpochLightClientBlocks,
    ReceiptIdToShardId,
    _NextBlockWithNewChunk,
    _LastBlockWithNewChunk,
    PeerComponent,
    ComponentEdges,
    LastComponentNonce,
    Transactions,
    _ChunkPerHeightShard,
    StateChanges,
    BlockRefCount,
    TrieChanges,
    BlockMerkleTree,
    ChunkHashesByHeight,
    BlockOrdinal,
    _GCCount,
    OutcomeIds,
    _TransactionRefCount,
    ProcessedBlockHeights,
    Receipts,
    CachedContractCode,
    EpochValidatorInfo,
    HeaderHashesByHeight,
    StateChangesForSplitStates,
    RecentOutboundConnections,
    TransactionResultForBlock,
    FlatState,
    FlatStateChanges,
    FlatStateDeltaMetadata,
    FlatStorageStatus,
}

/// How many of the columns, from the first on, have a column family named `col` and a number.
pub const NUMBERED_COLUMNS: usize = 50;

/// Every column, in order.
pub open spec fn all_columns() -> Seq<DBCol> {
    seq![
        DBCol::DbVersion,
        DBCol::BlockMisc,
        DBCol::Block,
        DBCol::BlockHeader,
        DBCol::BlockHeight,
        DBCol::State,
        DBCol::ChunkExtra,
        DBCol::_TransactionResult,
        DBCol::OutgoingReceipts,
        DBCol::IncomingReceipts,
        DBCol::_Peers,
        DBCol::EpochInfo,
        DBCol::BlockInfo,
        DBCol::Chunks,
        DBCol::PartialChunks,
        DBCol::BlocksToCatchup,
        DBCol::StateDlInfos,
        DBCol::ChallengedBlocks,
        DBCol::StateHeaders,
        DBCol::InvalidChunks,
        DBCol::BlockExtra,
        DBCol::BlockPerHeight,
        DBCol::StateParts,
        DBCol::EpochStart,
        DBCol::AccountAnnouncements,
        DBCol::NextBlockHashes,
        DBCol::EpochLightClientBlocks,
        DBCol::ReceiptIdToShardId,
        DBCol::_NextBlockWithNewChunk,
        DBCol::_LastBlockWithNewChunk,
        DBCol::PeerComponent,
        DBCol::ComponentEdges,
        DBCol::LastComponentNonce,
        DBCol::Transactions,
        DBCol::_ChunkPerHeightShard,
        DBCol::StateChanges,
        DBCol::BlockRefCount,
        DBCol::TrieChanges,
        DBCol::BlockMerkleTree,
        DBCol::ChunkHashesByHeight,
        DBCol::BlockOrdinal,
        DBCol::_GCCount,
        DBCol::OutcomeIds,
        DBCol::_TransactionRefCount,
        DBCol::ProcessedBlockHeights,
        DBCol::Receipts,
        DBCol::CachedContractCode,
        DBCol::EpochValidatorInfo,
        DBCol::HeaderHashesByHeight,
        DBCol::StateChangesForSplitStates,
        DBCol::RecentOutboundConnections,
        DBCol::TransactionResultForBlock,
        DBCol::FlatState,
        DBCol::FlatStateChanges,
        DBCol::FlatStateDeltaMetadata,
        DBCol::FlatStorageStatus,
    ]
}

/// The name of the variant `col`.
pub open spec fn variant_text(col: DBCol) -> Seq<char> {
    match col {
        DBCol::DbVersion => "DbVersion"@,
        DBCol::BlockMisc => "BlockMisc"@,
        DBCol::Block => "Block"@,
        DBCol::BlockHeader => "BlockHeader"@,
        DBCol::BlockHeight => "BlockHeight"@,
        DBCol::State => "State"@,
        DBCol::ChunkExtra => "ChunkExtra"@,
        DBCol::_TransactionResult => "_TransactionResult"@,
        DBCol::OutgoingReceipts => "OutgoingReceipts"@,
        DBCol::IncomingReceipts => "IncomingReceipts"@,
        DBCol::_Peers => "_Peers"@,
        DBCol::EpochInfo => "EpochInfo"@,
        DBCol::BlockInfo => "BlockInfo"@,
        DBCol::Chunks => "Chunks"@,
        DBCol::PartialChunks => "PartialChunks"@,
        DBCol::BlocksToCatchup => "BlocksToCatchup"@,
        DBCol::StateDlInfos => "StateDlInfos"@,
        DBCol::ChallengedBlocks => "ChallengedBlocks"@,
        DBCol::StateHeaders => "StateHeaders"@,
        DBCol::InvalidChunks => "InvalidChunks"@,
        DBCol::BlockExtra => "BlockExtra"@,
        DBCol::BlockPerHeight => "BlockPerHeight"@,
        DBCol::StateParts => "StateParts"@,
        DBCol::EpochStart => "EpochStart"@,
        DBCol::AccountAnnouncements => "AccountAnnouncements"@,
        DBCol::NextBlockHashes => "NextBlockHashes"@,
        DBCol::EpochLightClientBlocks => "EpochLightClientBlocks"@,
        DBCol::ReceiptIdToShardId => "ReceiptIdToShardId"@,
        DBCol::_NextBlockWithNewChunk => "_NextBlockWithNewChunk"@,
        DBCol::_LastBlockWithNewChunk => "_LastBlockWithNewChunk"@,
        DBCol::PeerComponent => "PeerComponent"@,
        DBCol::ComponentEdges => "ComponentEdges"@,
        DBCol::LastComponentNonce => "LastComponentNonce"@,
        DBCol::Transactions => "Transactions"@,
        DBCol::_ChunkPerHeightShard => "_ChunkPerHeightShard"@,
        DBCol::StateChanges => "StateChanges"@,
        DBCol::BlockRefCount => "BlockRefCount"@,
        DBCol::TrieChanges => "TrieChanges"@,
        DBCol::BlockMerkleTree => "BlockMerkleTree"@,
        DBCol::ChunkHashesByHeight => "ChunkHashesByHeight"@,
        DBCol::BlockOrdinal => "BlockOrdinal"@,
        DBCol::_GCCount => "_GCCount"@,
        DBCol::OutcomeIds => "OutcomeIds"@,
        DBCol::_TransactionRefCount => "_TransactionRefCount"@,
        DBCol::ProcessedBlockHeights => "ProcessedBlockHeights"@,
        DBCol::Receipts => "Receipts"@,
        DBCol::CachedContractCode => "CachedContractCode"@,
        DBCol::EpochValidatorInfo => "EpochValidatorInfo"@,
        DBCol::HeaderHashesByHeight => "HeaderHashesByHeight"@,
        DBCol::StateChangesForSplitStates => "StateChangesForSplitStates"@,
        DBCol::RecentOutboundConnections => "RecentOutboundConnections"@,
        DBCol::TransactionResultForBlock => "TransactionResultForBlock"@,
        DBCol::FlatState => "FlatState"@,
        DBCol::FlatStateChanges => "FlatStateChanges"@,
        DBCol::FlatStateDeltaMetadata => "FlatStateDeltaMetadata"@,
        DBCol::FlatStorageStatus => "FlatStorageStatus"@,
    }
}

/// The name of the column family of `col`: `col` and its number for the columns that had one
/// before that convention was given up, the name of the variant for all others.
pub open spec fn column_family_text(col: DBCol) -> Seq<char> {
    if col.ordinal() < NUMBERED_COLUMNS {
        "col"@ + decimal(col.ordinal())
    } else {
        variant_text(col)
    }
}

impl DBCol {
    /// The position of the column in the list of all columns.
    pub open spec fn ordinal(self) -> nat {
        self as nat
    }

    /// The position of the column in the list of all columns.
    pub fn index(self) -> (r: usize)
        ensures
            r == self.ordinal(),
            r < all_columns().len(),
            all_columns()[r as int] == self,
    {
        proof {
            law_every_column_listed_once(self);
        }
        self as usize
    }

    /// Every column, in order.
    pub fn iter() -> (r: Vec<DBCol>)
        ensures
            r@ == all_columns(),
    {
        vec![
            DBCol::DbVersion,
            DBCol::BlockMisc,
            DBCol::Block,
            DBCol::BlockHeader,
            DBCol::BlockHeight,
            DBCol::State,
            DBCol::ChunkExtra,
            DBCol::_TransactionResult,
            DBCol::OutgoingReceipts,
            DBCol::IncomingReceipts,
            DBCol::_Peers,
            DBCol::EpochInfo,
            DBCol::BlockInfo,
            DBCol::Chunks,
            DBCol::PartialChunks,
            DBCol::BlocksToCatchup,
            DBCol::StateDlInfos,
            DBCol::ChallengedBlocks,
            DBCol::StateHeaders,
            DBCol::InvalidChunks,
            DBCol::BlockExtra,
            DBCol::BlockPerHeight,
            DBCol::StateParts,
            DBCol::EpochStart,
            DBCol::AccountAnnouncements,
            DBCol::NextBlockHashes,
            DBCol::EpochLightClientBlocks,
            DBCol::ReceiptIdToShardId,
            DBCol::_NextBlockWithNewChunk,
            DBCol::_LastBlockWithNewChunk,
            DBCol::PeerComponent,
            DBCol::ComponentEdges,
            DBCol::LastComponentNonce,
            DBCol::Transactions,
            DBCol::_ChunkPerHeightShard,
            DBCol::StateChanges,
            DBCol::BlockRefCount,
            DBCol::TrieChanges,
            DBCol::BlockMerkleTree,
            DBCol::ChunkHashesByHeight,
            DBCol::BlockOrdinal,
            DBCol::_GCCount,
            DBCol::OutcomeIds,
            DBCol::_TransactionRefCount,
            DBCol::ProcessedBlockHeights,
            DBCol::Receipts,
            DBCol::CachedContractCode,
            DBCol::EpochValidatorInfo,
            DBCol::HeaderHashesByHeight,
            DBCol::StateChangesForSplitStates,
            DBCol::RecentOutboundConnections,
            DBCol::TransactionResultForBlock,
            DBCol::FlatState,
            DBCol::FlatStateChanges,
            DBCol::FlatStateDeltaMetadata,
            DBCol::FlatStorageStatus,
        ]
    }

    /// The name of the variant, which is how the column is shown to people.
    pub fn variant_name(self) -> (r: &'static str)
        ensures
            r@ == variant_text(self),
    {
        match self {
            DBCol::DbVersion => "DbVersion",
            DBCol::BlockMisc => "BlockMisc",
            DBCol::Block => "Block",
            DBCol::BlockHeader => "BlockHeader",
            DBCol::BlockHeight => "BlockHeight",
            DBCol::State => "State",
            DBCol::ChunkExtra => "ChunkExtra",
            DBCol::_TransactionResult => "_TransactionResult",
            DBCol::OutgoingReceipts => "OutgoingReceipts",
            DBCol::IncomingReceipts => "IncomingReceipts",
            DBCol::_Peers => "_Peers",
            DBCol::EpochInfo => "EpochInfo",
            DBCol::BlockInfo => "BlockInfo",
            DBCol::Chunks => "Chunks",
            DBCol::PartialChunks => "PartialChunks",
            DBCol::BlocksToCatchup => "BlocksToCatchup",
            DBCol::StateDlInfos => "StateDlInfos",
            DBCol::ChallengedBlocks => "ChallengedBlocks",
            DBCol::StateHeaders => "StateHeaders",
            DBCol::InvalidChunks => "InvalidChunks",
            DBCol::BlockExtra => "BlockExtra",
            DBCol::BlockPerHeight => "BlockPerHeight",
            DBCol::StateParts => "StateParts",
            DBCol::EpochStart => "EpochStart",
            DBCol::AccountAnnouncements => "AccountAnnouncements",
            DBCol::NextBlockHashes => "NextBlockHashes",
            DBCol::EpochLightClientBlocks => "EpochLightClientBlocks",
            DBCol::ReceiptIdToShardId => "ReceiptIdToShardId",
            DBCol::_NextBlockWithNewChunk => "_NextBlockWithNewChunk",
            DBCol::_LastBlockWithNewChunk => "_LastBlockWithNewChunk",
            DBCol::PeerComponent => "PeerComponent",
            DBCol::ComponentEdges => "ComponentEdges",
            DBCol::LastComponentNonce => "LastComponentNonce",
            DBCol::Transactions => "Transactions",
            DBCol::_ChunkPerHeightShard => "_ChunkPerHeightShard",
            DBCol::StateChanges => "StateChanges",
            DBCol::BlockRefCount => "BlockRefCount",
            DBCol::TrieChanges => "TrieChanges",
            DBCol::BlockMerkleTree => "BlockMerkleTree",
            DBCol::ChunkHashesByHeight => "ChunkHashesByHeight",
            DBCol::BlockOrdinal => "BlockOrdinal",
            DBCol::_GCCount => "_GCCount",
            DBCol::OutcomeIds => "OutcomeIds",
            DBCol::_TransactionRefCount => "_TransactionRefCount",
            DBCol::ProcessedBlockHeights => "ProcessedBlockHeights",
            DBCol::Receipts => "Receipts",
            DBCol::CachedContractCode => "CachedContractCode",
            DBCol::EpochValidatorInfo => "EpochValidatorInfo",
            DBCol::HeaderHashesByHeight => "HeaderHashesByHeight",
            DBCol::StateChangesForSplitStates => "StateChangesForSplitStates",
            DBCol::RecentOutboundConnections => "RecentOutboundConnections",
            DBCol::TransactionResultForBlock => "TransactionResultForBlock",
            DBCol::FlatState => "FlatState",
            DBCol::FlatStateChanges => "FlatStateChanges",
            DBCol::FlatStateDeltaMetadata => "FlatStateDeltaMetadata",
            DBCol::FlatStorageStatus => "FlatStorageStatus",
        }
    }
}

/// Returns name of a RocksDB column family corresponding to given column.
///
/// Columns used to be named `col##`, with `##` the position of the column. That convention has
/// been given up: every later column family is named the same as the variant of [`DBCol`].
pub fn col_name(col: DBCol) -> (r: &'static str)
    ensures
        r@ == column_family_text(col),
{
    proof {
        reveal_with_fuel(decimal, 2);
        reveal_strlit("col");
        reveal_strlit("col0");
        reveal_strlit("col1");
        reveal_strlit("col2");
        reveal_strlit("col3");
        reveal_strlit("col4");
        reveal_strlit("col5");
        reveal_strlit("col6");
        reveal_strlit("col7");
        reveal_strlit("col8");
        reveal_strlit("col9");
        reveal_strlit("col10");
        reveal_strlit("col11");
        reveal_strlit("col12");
        reveal_strlit("col13");
        reveal_strlit("col14");
        reveal_strlit("col15");
        reveal_strlit("col16");
        reveal_strlit("col17");
        reveal_strlit("col18");
        reveal_strlit("col19");
        reveal_strlit("col20");
        reveal_strlit("col21");
        reveal_strlit("col22");
        reveal_strlit("col23");
        reveal_strlit("col24");
        reveal_strlit("col25");
        reveal_strlit("col26");
        reveal_strlit("col27");
        reveal_strlit("col28");
        reveal_strlit("col29");
        reveal_strlit("col30");
        reveal_strlit("col31");
        reveal_strlit("col32");
        reveal_strlit("col33");
        reveal_strlit("col34");
        reveal_strlit("col35");
        reveal_strlit("col36");
        reveal_strlit("col37");
        reveal_strlit("col38");
        reveal_strlit("col39");
        reveal_strlit("col40");
        reveal_strlit("col41");
        reveal_strlit("col42");
        reveal_strlit("col43");
        reveal_strlit("col44");
        reveal_strlit("col45");
        reveal_strlit("col46");
        reveal_strlit("col47");
        reveal_strlit("col48");
        reveal_strlit("col49");
    }
    let name: &'static str = match col {
        DBCol::DbVersion => "col0",
        DBCol::BlockMisc => "col1",
        DBCol::Block => "col2",
        DBCol::BlockHeader => "col3",
        DBCol::BlockHeight => "col4",
        DBCol::State => "col5",
        DBCol::ChunkExtra => "col6",
        DBCol::_TransactionResult => "col7",
        DBCol::OutgoingReceipts => "col8",
        DBCol::IncomingReceipts => "col9",
        DBCol::_Peers => "col10",
        DBCol::EpochInfo => "col11",
        DBCol::BlockInfo => "col12",
        DBCol::Chunks => "col13",
        DBCol::PartialChunks => "col14",
        DBCol::BlocksToCatchup => "col15",
        DBCol::StateDlInfos => "col16",
        DBCol::ChallengedBlocks => "col17",
        DBCol::StateHeaders => "col18",
        DBCol::InvalidChunks => "col19",
        DBCol::BlockExtra => "col20",
        DBCol::BlockPerHeight => "col21",
        DBCol::StateParts => "col22",
        DBCol::EpochStart => "col23",
        DBCol::AccountAnnouncements => "col24",
        DBCol::NextBlockHashes => "col25",
        DBCol::EpochLightClientBlocks => "col26",
        DBCol::ReceiptIdToShardId => "col27",
        DBCol::_NextBlockWithNewChunk => "col28",
        DBCol::_LastBlockWithNewChunk => "col29",
        DBCol::PeerComponent => "col30",
        DBCol::ComponentEdges => "col31",
        DBCol::LastComponentNonce => "col32",
        DBCol::Transactions => "col33",
        DBCol::_ChunkPerHeightShard => "col34",
        DBCol::StateChanges => "col35",
        DBCol::BlockRefCount => "col36",
        DBCol::TrieChanges => "col37",
        DBCol::BlockMerkleTree => "col38",
        DBCol::ChunkHashesByHeight => "col39",
        DBCol::BlockOrdinal => "col40",
        DBCol::_GCCount => "col41",
        DBCol::OutcomeIds => "col42",
        DBCol::_TransactionRefCount => "col43",
        DBCol::ProcessedBlockHeights => "col44",
        DBCol::Receipts => "col45",
        DBCol::CachedContractCode => "col46",
        DBCol::EpochValidatorInfo => "col47",
        DBCol::HeaderHashesByHeight => "col48",
        DBCol::StateChangesForSplitStates => "col49",
        // A new column gets no case of its own: this one is for all of them.
        _ => col.variant_name(),
    };
    assert(name@ =~= column_family_text(col));
    name
}

/// Every column stands in the list of all columns, at its own position and at no other.
pub proof fn law_every_column_listed_once(col: DBCol)
    ensures
        col.ordinal() < all_columns().len(),
        forall|i: int|
            0 <= i < all_columns().len() ==> (#[trigger] all_columns()[i] == col <==> i
                == col.ordinal()),
{
    assert forall|i: int| 0 <= i < all_columns().len() implies (#[trigger] all_columns()[i]).ordinal()
        == i by {}
}

/// No two columns share a column family: their names differ.
pub proof fn law_column_family_names_differ(a: DBCol, b: DBCol)
    requires
        a != b,
    ensures
        column_family_text(a) != column_family_text(b),
{
    reveal_strlit("col");
    reveal_strlit("RecentOutboundConnections");
    reveal_strlit("TransactionResultForBlock");
    reveal_strlit("FlatState");
    reveal_strlit("FlatStateChanges");
    reveal_strlit("FlatStateDeltaMetadata");
    reveal_strlit("FlatStorageStatus");
    let (m, n) = (a.ordinal(), b.ordinal());
    law_every_column_listed_once(a);
    law_every_column_listed_once(b);
    let (x, y) = (column_family_text(a), column_family_text(b));
    if m < NUMBERED_COLUMNS && n < NUMBERED_COLUMNS {
        if x == y {
            assert(x.skip(3) =~= decimal(m));
            assert(y.skip(3) =~= decimal(n));
            lemma_decimal_injective(m, n);
        }
    } else if m < NUMBERED_COLUMNS {
        assert(x[0] == 'c');
        assert(y[0] != 'c');
    } else if n < NUMBERED_COLUMNS {
        assert(y[0] == 'c');
        assert(x[0] != 'c');
    } else {
        assert(x.len() != y.len() || x[0] != y[0]);
    }
}

} // verus!
