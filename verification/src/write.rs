//! Transactions, and the batches of writes that carry them out.
use vstd::prelude::*;
use vstd::slice::slice_to_vec;

use crate::column::DBCol;
use crate::error::StoreError;
use crate::handles::{no_such_column_text, CfHandles};
use crate::iterate::{
    is_range_of, key_before, lemma_key_before_irreflexive, lemma_key_before_total, range_view,
    KeyRange,
};

verus! {

/// One operation of a transaction.
#[derive(Debug, PartialEq, Eq)]
pub enum DBOp {
    /// Sets the value of the key.
    SetValue { col: DBCol, key: Vec<u8>, value: Vec<u8> },
    /// Sets the value of a key that has none yet, or has that value already.
    Insert { col: DBCol, key: Vec<u8>, value: Vec<u8> },
    /// Changes the reference count of the key.
    UpdateRefcount { col: DBCol, key: Vec<u8>, value: Vec<u8> },
    /// Deletes the key.
    Delete { col: DBCol, key: Vec<u8> },
    /// Deletes all keys of the column.
    DeleteAll { col: DBCol },
    /// Deletes the keys from `from` on, up to `to`, which is not deleted.
    DeleteRange { col: DBCol, from: Vec<u8>, to: Vec<u8> },
}

/// What a [`DBOp`] holds.
pub enum OpView {
    SetValue { col: DBCol, key: Seq<u8>, value: Seq<u8> },
    Insert { col: DBCol, key: Seq<u8>, value: Seq<u8> },
    UpdateRefcount { col: DBCol, key: Seq<u8>, value: Seq<u8> },
    Delete { col: DBCol, key: Seq<u8> },
    DeleteAll { col: DBCol },
    DeleteRange { col: DBCol, from: Seq<u8>, to: Seq<u8> },
}

impl View for DBOp {
    type V = OpView;

    open spec fn view(&self) -> OpView {
        match *self {
            DBOp::SetValue { col, key, value } => OpView::SetValue { col, key: key@, value: value@ },
            DBOp::Insert { col, key, value } => OpView::Insert { col, key: key@, value: value@ },
            DBOp::UpdateRefcount { col, key, value } => OpView::UpdateRefcount {
                col,
                key: key@,
                value: value@,
            },
            DBOp::Delete { col, key } => OpView::Delete { col, key: key@ },
            DBOp::DeleteAll { col } => OpView::DeleteAll { col },
            DBOp::DeleteRange { col, from, to } => OpView::DeleteRange {
                col,
                from: from@,
                to: to@,
            },
        }
    }
}

impl OpView {
    /// The column that the operation is on.
    pub open spec fn column(self) -> DBCol {
        match self {
            OpView::SetValue { col, .. } => col,
            OpView::Insert { col, .. } => col,
            OpView::UpdateRefcount { col, .. } => col,
            OpView::Delete { col, .. } => col,
            OpView::DeleteAll { col } => col,
            OpView::DeleteRange { col, .. } => col,
        }
    }
}

/// Operations that are carried out together, in order.
#[derive(Debug, PartialEq, Eq)]
pub struct DBTransaction {
    pub ops: Vec<DBOp>,
}

impl View for DBTransaction {
    type V = Seq<OpView>;

    open spec fn view(&self) -> Seq<OpView> {
        self.ops@.map_values(|op: DBOp| op@)
    }
}

/// One write of a batch.
#[derive(Debug, PartialEq, Eq)]
pub enum BatchOp {
    Put { col: DBCol, key: Vec<u8>, value: Vec<u8> },
    Merge { col: DBCol, key: Vec<u8>, value: Vec<u8> },
    Delete { col: DBCol, key: Vec<u8> },
    /// Deletes the keys from `from` on, up to `to`, which is not deleted.
    DeleteRange { col: DBCol, from: Vec<u8>, to: Vec<u8> },
}

/// What a [`BatchOp`] holds.
pub enum BatchOpView {
    Put { col: DBCol, key: Seq<u8>, value: Seq<u8> },
    Merge { col: DBCol, key: Seq<u8>, value: Seq<u8> },
    Delete { col: DBCol, key: Seq<u8> },
    DeleteRange { col: DBCol, from: Seq<u8>, to: Seq<u8> },
}

impl View for BatchOp {
    type V = BatchOpView;

    open spec fn view(&self) -> BatchOpView {
        match *self {
            BatchOp::Put { col, key, value } => BatchOpView::Put { col, key: key@, value: value@ },
            BatchOp::Merge { col, key, value } => BatchOpView::Merge {
                col,
                key: key@,
                value: value@,
            },
            BatchOp::Delete { col, key } => BatchOpView::Delete { col, key: key@ },
            BatchOp::DeleteRange { col, from, to } => BatchOpView::DeleteRange {
                col,
                from: from@,
                to: to@,
            },
        }
    }
}

/// What a batch holds.
pub open spec fn batch_view(batch: Seq<BatchOp>) -> Seq<BatchOpView> {
    batch.map_values(|op: BatchOp| op@)
}

/// What has to be read before an operation can be carried out.
#[derive(Debug, PartialEq, Eq)]
pub enum ReadRequest {
    Nothing,
    /// The value of the key, to see that it is not overwritten.
    OldValue { col: DBCol, key: Vec<u8> },
    /// The range of keys of the column.
    KeyRange { col: DBCol },
}

/// `request` is what has to be read before `op`. Old values are looked at only where
/// `checked`.
pub open spec fn is_read_for(request: ReadRequest, op: OpView, checked: bool) -> bool {
    match op {
        OpView::Insert { col, key, .. } if checked => {
            &&& request matches ReadRequest::OldValue { col: c, key: k }
            &&& c == col
            &&& k@ == key
        },
        OpView::DeleteAll { col } => request == (ReadRequest::KeyRange { col }),
        _ => request == ReadRequest::Nothing,
    }
}

/// The writes that carry out `op`, where `range` is the range of keys of its column.
///
/// Deleting a range leaves its end, so the largest key of a column takes a deletion of its own.
pub open spec fn op_batch(op: OpView, range: Option<(Seq<u8>, Seq<u8>)>) -> Seq<BatchOpView> {
    match op {
        OpView::SetValue { col, key, value } => seq![BatchOpView::Put { col, key, value }],
        OpView::Insert { col, key, value } => seq![BatchOpView::Put { col, key, value }],
        OpView::UpdateRefcount { col, key, value } => seq![BatchOpView::Merge { col, key, value }],
        OpView::Delete { col, key } => seq![BatchOpView::Delete { col, key }],
        OpView::DeleteAll { col } => match range {
            Some((start, end)) => seq![
                BatchOpView::DeleteRange { col, from: start, to: end },
                BatchOpView::Delete { col, key: end },
            ],
            None => Seq::empty(),
        },
        OpView::DeleteRange { col, from, to } => seq![BatchOpView::DeleteRange { col, from, to }],
    }
}

/// The writes that carry out `ops`, where `ranges` holds the range that was read before each.
pub open spec fn transaction_batch(
    ops: Seq<OpView>,
    ranges: Seq<Option<(Seq<u8>, Seq<u8>)>>,
) -> Seq<BatchOpView>
    decreases ops.len(),
{
    if ops.len() == 0 {
        Seq::empty()
    } else {
        transaction_batch(ops.drop_last(), ranges.drop_last()) + op_batch(ops.last(), ranges.last())
    }
}

/// The column that an operation is on.
pub fn column_of(op: &DBOp) -> (r: DBCol)
    ensures
        r == op@.column(),
{
    match op {
        DBOp::SetValue { col, .. } => *col,
        DBOp::Insert { col, .. } => *col,
        DBOp::UpdateRefcount { col, .. } => *col,
        DBOp::Delete { col, .. } => *col,
        DBOp::DeleteAll { col } => *col,
        DBOp::DeleteRange { col, .. } => *col,
    }
}

fn read_for(op: &DBOp, checked: bool) -> (r: ReadRequest)
    ensures
        is_read_for(r, op@, checked),
{
    match op {
        DBOp::Insert { col, key, .. } => if checked {
            ReadRequest::OldValue { col: *col, key: slice_to_vec(key.as_slice()) }
        } else {
            ReadRequest::Nothing
        },
        DBOp::DeleteAll { col } => ReadRequest::KeyRange { col: *col },
        _ => ReadRequest::Nothing,
    }
}

/// Lists what has to be read before each operation of a transaction, in order, up to the first
/// operation on a column that the database is not set up to access, and the error with which
/// the transaction is refused there.
///
/// `checked` asks to look at the values that insertions must not overwrite.
pub fn plan_reads(handles: &CfHandles, transaction: &DBTransaction, checked: bool) -> (r: (
    Vec<ReadRequest>,
    Option<StoreError>,
))
    ensures
        r.0@.len() <= transaction@.len(),
        forall|i: int|
            0 <= i < r.0@.len() ==> is_read_for(#[trigger] r.0@[i], transaction@[i], checked)
                && handles@.contains_key(transaction@[i].column()),
        match r.1 {
            Some(e) => {
                &&& r.0@.len() < transaction@.len()
                &&& !handles@.contains_key(transaction@[r.0@.len() as int].column())
                &&& e.message@ == no_such_column_text(transaction@[r.0@.len() as int].column())
            },
            None => r.0@.len() == transaction@.len(),
        },
{
    let mut requests: Vec<ReadRequest> = Vec::new();
    let mut i: usize = 0;
    while i < transaction.ops.len()
        invariant
            i <= transaction.ops.len(),
            requests@.len() == i,
            forall|j: int|
                0 <= j < i ==> is_read_for(#[trigger] requests@[j], transaction@[j], checked)
                    && handles@.contains_key(transaction@[j].column()),
        decreases transaction.ops.len() - i,
    {
        let op = &transaction.ops[i];
        assert(transaction@[i as int] == op@);
        if let Err(e) = handles.cf_handle(column_of(op)) {
            return (requests, Some(e));
        }
        let ghost before = requests@;
        let request = read_for(op, checked);
        requests.push(request);
        assert forall|j: int| 0 <= j <= i implies is_read_for(
            #[trigger] requests@[j],
            transaction@[j],
            checked,
        ) && handles@.contains_key(transaction@[j].column()) by {
            if j < i {
                assert(requests@[j] == before[j]);
            }
        }
        i += 1;
    }
    (requests, None)
}

fn add_op(batch: &mut Vec<BatchOp>, op: DBOp, range: &Option<KeyRange>)
    ensures
        batch_view(final(batch)@) == batch_view(old(batch)@) + op_batch(op@, range_view(*range)),
{
    let ghost before = batch_view(batch@);
    let ghost writes = op_batch(op@, range_view(*range));
    match op {
        DBOp::SetValue { col, key, value } => {
            batch.push(BatchOp::Put { col, key, value });
        },
        DBOp::Insert { col, key, value } => {
            batch.push(BatchOp::Put { col, key, value });
        },
        DBOp::UpdateRefcount { col, key, value } => {
            batch.push(BatchOp::Merge { col, key, value });
        },
        DBOp::Delete { col, key } => {
            batch.push(BatchOp::Delete { col, key });
        },
        DBOp::DeleteAll { col } => {
            if let Some(range) = range {
                let from = slice_to_vec(range.start.as_slice());
                let to = slice_to_vec(range.end.as_slice());
                batch.push(BatchOp::DeleteRange { col, from, to });
                // A range is deleted without its end, so need one more delete
                let key = slice_to_vec(range.end.as_slice());
                batch.push(BatchOp::Delete { col, key });
            }
        },
        DBOp::DeleteRange { col, from, to } => {
            batch.push(BatchOp::DeleteRange { col, from, to });
        },
    }
    assert(batch_view(batch@) =~= before + writes);
}

/// What each range holds.
pub open spec fn ranges_view(ranges: Seq<Option<KeyRange>>) -> Seq<Option<(Seq<u8>, Seq<u8>)>> {
    ranges.map_values(|range: Option<KeyRange>| range_view(range))
}

/// The batch that carries out a transaction.
///
/// `ranges` holds, for each operation, the range of keys that was read before it, if any.
pub fn write_batch(transaction: DBTransaction, ranges: &Vec<Option<KeyRange>>) -> (r: Vec<BatchOp>)
    requires
        ranges@.len() == transaction@.len(),
    ensures
        batch_view(r@) == transaction_batch(transaction@, ranges_view(ranges@)),
{
    let ghost all = transaction@;
    let ghost found = ranges_view(ranges@);
    let ghost ops = transaction.ops@;
    let mut batch: Vec<BatchOp> = Vec::new();
    let mut i: usize = 0;
    assert(batch_view(batch@) =~= transaction_batch(all.take(0), found.take(0)));
    for op in it: transaction.ops
        invariant
            it.seq() == ops,
            i == it.index(),
            all == ops.map_values(|op: DBOp| op@),
            found == ranges_view(ranges@),
            found.len() == all.len(),
            batch_view(batch@) == transaction_batch(all.take(i as int), found.take(i as int)),
    {
        proof {
            assert(all[i as int] == op@);
            assert(all.take(i + 1).drop_last() =~= all.take(i as int));
            assert(found.take(i + 1).drop_last() =~= found.take(i as int));
        }
        assert(i < ranges.len());
        add_op(&mut batch, op, &ranges[i]);
        i += 1;
    }
    assert(all.take(i as int) =~= all);
    assert(found.take(i as int) =~= found);
    batch
}

/// The values that a database holds, each under its column and key.
pub type Contents = Map<(DBCol, Seq<u8>), Seq<u8>>;

/// What a merge makes of the value that a key has, if any, and the value that is merged into
/// it.
pub type MergeFn = spec_fn(Option<Seq<u8>>, Seq<u8>) -> Option<Seq<u8>>;

/// `key` is one of the keys from `from` on, up to `to`, which is not among them.
pub open spec fn in_range(key: Seq<u8>, from: Seq<u8>, to: Seq<u8>) -> bool {
    !key_before(key, from) && key_before(key, to)
}

/// `db` with `value` under the key, or with nothing there.
pub open spec fn with_value(
    db: Contents,
    col: DBCol,
    key: Seq<u8>,
    value: Option<Seq<u8>>,
) -> Contents {
    match value {
        Some(value) => db.insert((col, key), value),
        None => db.remove((col, key)),
    }
}

/// `db` without the keys of `col` from `from` on, up to `to`.
pub open spec fn without_range(db: Contents, col: DBCol, from: Seq<u8>, to: Seq<u8>) -> Contents {
    db.remove_keys(Set::new(|at: (DBCol, Seq<u8>)| at.0 == col && in_range(at.1, from, to)))
}

/// `db` without the keys of `col`.
pub open spec fn without_column(db: Contents, col: DBCol) -> Contents {
    db.remove_keys(Set::new(|at: (DBCol, Seq<u8>)| at.0 == col))
}

/// The value under a key, if any.
pub open spec fn value_at(db: Contents, col: DBCol, key: Seq<u8>) -> Option<Seq<u8>> {
    if db.contains_key((col, key)) {
        Some(db[(col, key)])
    } else {
        None
    }
}

/// The keys of a column.
pub open spec fn keys_of(db: Contents, col: DBCol) -> Set<Seq<u8>> {
    Set::new(|key: Seq<u8>| db.contains_key((col, key)))
}

/// What one write makes of `db`.
pub open spec fn after_write(db: Contents, write: BatchOpView, merge: MergeFn) -> Contents {
    match write {
        BatchOpView::Put { col, key, value } => with_value(db, col, key, Some(value)),
        BatchOpView::Merge { col, key, value } => with_value(
            db,
            col,
            key,
            merge(value_at(db, col, key), value),
        ),
        BatchOpView::Delete { col, key } => with_value(db, col, key, None),
        BatchOpView::DeleteRange { col, from, to } => without_range(db, col, from, to),
    }
}

/// What a batch of writes makes of `db`.
pub open spec fn after_batch(db: Contents, batch: Seq<BatchOpView>, merge: MergeFn) -> Contents
    decreases batch.len(),
{
    if batch.len() == 0 {
        db
    } else {
        after_write(after_batch(db, batch.drop_last(), merge), batch.last(), merge)
    }
}

/// What an operation is meant to make of `db`.
pub open spec fn after_op(db: Contents, op: OpView, merge: MergeFn) -> Contents {
    match op {
        OpView::SetValue { col, key, value } => with_value(db, col, key, Some(value)),
        OpView::Insert { col, key, value } => with_value(db, col, key, Some(value)),
        OpView::UpdateRefcount { col, key, value } => with_value(
            db,
            col,
            key,
            merge(value_at(db, col, key), value),
        ),
        OpView::Delete { col, key } => with_value(db, col, key, None),
        OpView::DeleteAll { col } => without_column(db, col),
        OpView::DeleteRange { col, from, to } => without_range(db, col, from, to),
    }
}

/// What a transaction is meant to make of `db`.
pub open spec fn after_ops(db: Contents, ops: Seq<OpView>, merge: MergeFn) -> Contents
    decreases ops.len(),
{
    if ops.len() == 0 {
        db
    } else {
        after_op(after_ops(db, ops.drop_last(), merge), ops.last(), merge)
    }
}

/// All of `keys` lie in `range`, both its ends among it.
pub open spec fn covers(range: Option<(Seq<u8>, Seq<u8>)>, keys: Set<Seq<u8>>) -> bool {
    match range {
        Some((start, end)) => forall|k: Seq<u8>| #[trigger]
            keys.contains(k) ==> !key_before(k, start) && !key_before(end, k),
        None => forall|k: Seq<u8>| !keys.contains(k),
    }
}

/// The range of a column's keys covers them all.
proof fn lemma_range_covers(range: Option<(Seq<u8>, Seq<u8>)>, keys: Set<Seq<u8>>)
    requires
        is_range_of(range, keys),
    ensures
        covers(range, keys),
{
}

proof fn lemma_after_batch_append(
    db: Contents,
    a: Seq<BatchOpView>,
    b: Seq<BatchOpView>,
    merge: MergeFn,
)
    ensures
        after_batch(db, a + b, merge) == after_batch(after_batch(db, a, merge), b, merge),
    decreases b.len(),
{
    if b.len() == 0 {
        assert(a + b =~= a);
    } else {
        lemma_after_batch_append(db, a, b.drop_last(), merge);
        assert((a + b).drop_last() =~= a + b.drop_last());
        assert((a + b).last() == b.last());
    }
}

/// Carrying out an operation makes of the database what the operation is meant to make of it,
/// where, for the deletion of a whole column, the range that was read covers the column's keys.
pub proof fn law_operation_carried_out(
    db: Contents,
    op: OpView,
    range: Option<(Seq<u8>, Seq<u8>)>,
    merge: MergeFn,
)
    requires
        op is DeleteAll ==> covers(range, keys_of(db, op.column())),
    ensures
        after_batch(db, op_batch(op, range), merge) == after_op(db, op, merge),
{
    let batch = op_batch(op, range);
    if op is DeleteAll {
        let col = op.column();
        match range {
            Some((start, end)) => {
                let first = BatchOpView::DeleteRange { col, from: start, to: end };
                assert(batch.drop_last() =~= seq![first]);
                assert(seq![first].drop_last() =~= Seq::empty());
                let mid = without_range(db, col, start, end);
                assert(after_batch(db, Seq::empty(), merge) == db);
                assert(after_batch(db, seq![first], merge) == mid);
                assert(after_batch(db, batch, merge) == mid.remove((col, end)));
                assert forall|key: Seq<u8>| keys_of(db, col).contains(key) implies in_range(
                    key,
                    start,
                    end,
                ) || key == end by {
                    lemma_key_before_total(key, end);
                }
                assert forall|at: (DBCol, Seq<u8>)|
                    mid.remove((col, end)).contains_key(at) <==> without_column(
                        db,
                        col,
                    ).contains_key(at) by {
                    if at.0 == col && db.contains_key(at) {
                        assert(keys_of(db, col).contains(at.1));
                    }
                }
                assert(mid.remove((col, end)) =~= without_column(db, col));
            },
            None => {
                assert forall|at: (DBCol, Seq<u8>)| db.contains_key(at) implies at.0 != col by {
                    assert(!keys_of(db, col).contains(at.1));
                }
                assert(without_column(db, col) =~= db);
            },
        }
    } else {
        assert(batch.drop_last() =~= Seq::empty());
        assert(after_batch(db, batch.drop_last(), merge) == db);
    }
}

/// Carrying out a transaction makes of the database what its operations, one after the other,
/// are meant to make of it.
///
/// The ranges are read before any of the writes, so each has to cover what the column holds
/// when its deletion comes up, including what earlier operations of the transaction put there.
pub proof fn law_transaction_carried_out(
    db: Contents,
    ops: Seq<OpView>,
    ranges: Seq<Option<(Seq<u8>, Seq<u8>)>>,
    merge: MergeFn,
)
    requires
        ranges.len() == ops.len(),
        forall|i: int|
            0 <= i < ops.len() && (#[trigger] ops[i]) is DeleteAll ==> covers(
                ranges[i],
                keys_of(after_ops(db, ops.take(i), merge), ops[i].column()),
            ),
    ensures
        after_batch(db, transaction_batch(ops, ranges), merge) == after_ops(db, ops, merge),
    decreases ops.len(),
{
    if ops.len() > 0 {
        let n = ops.len() - 1;
        let (rest, last) = (ops.drop_last(), ops.last());
        assert forall|i: int| 0 <= i < rest.len() && (#[trigger] rest[i]) is DeleteAll implies covers(
            ranges.drop_last()[i],
            keys_of(after_ops(db, rest.take(i), merge), rest[i].column()),
        ) by {
            assert(rest[i] == ops[i]);
            assert(rest.take(i) =~= ops.take(i));
        }
        law_transaction_carried_out(db, rest, ranges.drop_last(), merge);
        assert(ops.take(n) =~= rest);
        assert(ops[n] == last);
        lemma_after_batch_append(
            db,
            transaction_batch(rest, ranges.drop_last()),
            op_batch(last, ranges.last()),
            merge,
        );
        law_operation_carried_out(after_ops(db, rest, merge), last, ranges.last(), merge);
    }
}

/// `op` may put a key into `col` that was not there.
pub open spec fn adds_to(op: OpView, col: DBCol) -> bool {
    (op is SetValue || op is Insert || op is UpdateRefcount) && op.column() == col
}

proof fn lemma_no_new_keys(db: Contents, ops: Seq<OpView>, col: DBCol, merge: MergeFn)
    requires
        forall|j: int| 0 <= j < ops.len() ==> !adds_to(#[trigger] ops[j], col),
    ensures
        keys_of(after_ops(db, ops, merge), col).subset_of(keys_of(db, col)),
    decreases ops.len(),
{
    if ops.len() > 0 {
        let rest = ops.drop_last();
        assert forall|j: int| 0 <= j < rest.len() implies !adds_to(#[trigger] rest[j], col) by {
            assert(rest[j] == ops[j]);
        }
        lemma_no_new_keys(db, rest, col, merge);
        let before = after_ops(db, rest, merge);
        let after = after_ops(db, ops, merge);
        assert(!adds_to(ops[ops.len() - 1], col));
        assert forall|key: Seq<u8>| keys_of(after, col).contains(key) implies keys_of(
            before,
            col,
        ).contains(key) by {}
    }
}

/// Where the ranges are those of the database before the transaction, and no column is emptied
/// after the transaction put something into it, carrying out the transaction makes of the
/// database what its operations are meant to make of it.
pub proof fn law_transaction_with_ranges_read_before(
    db: Contents,
    ops: Seq<OpView>,
    ranges: Seq<Option<(Seq<u8>, Seq<u8>)>>,
    merge: MergeFn,
)
    requires
        ranges.len() == ops.len(),
        forall|i: int|
            0 <= i < ops.len() && (#[trigger] ops[i]) is DeleteAll ==> is_range_of(
                ranges[i],
                keys_of(db, ops[i].column()),
            ),
        forall|i: int, j: int|
            0 <= j < i < ops.len() && (#[trigger] ops[i]) is DeleteAll ==> !adds_to(
                #[trigger] ops[j],
                ops[i].column(),
            ),
    ensures
        after_batch(db, transaction_batch(ops, ranges), merge) == after_ops(db, ops, merge),
{
    assert forall|i: int| 0 <= i < ops.len() && (#[trigger] ops[i]) is DeleteAll implies covers(
        ranges[i],
        keys_of(after_ops(db, ops.take(i), merge), ops[i].column()),
    ) by {
        let col = ops[i].column();
        assert forall|j: int| 0 <= j < i implies !adds_to(#[trigger] ops.take(i)[j], col) by {
            assert(ops.take(i)[j] == ops[j]);
        }
        lemma_no_new_keys(db, ops.take(i), col, merge);
        lemma_range_covers(ranges[i], keys_of(db, col));
    }
    law_transaction_carried_out(db, ops, ranges, merge);
}

/// Deleting all of a column, with the range of its keys at hand, leaves it empty and leaves
/// every other column as it was.
pub proof fn law_delete_all_empties_column(
    db: Contents,
    col: DBCol,
    range: Option<(Seq<u8>, Seq<u8>)>,
    merge: MergeFn,
)
    requires
        is_range_of(range, keys_of(db, col)),
    ensures
        ({
            let after = after_batch(db, op_batch(OpView::DeleteAll { col }, range), merge);
            forall|c: DBCol, key: Seq<u8>| #[trigger]
                value_at(after, c, key) == if c == col {
                    None
                } else {
                    value_at(db, c, key)
                }
        }),
{
    lemma_range_covers(range, keys_of(db, col));
    law_operation_carried_out(db, OpView::DeleteAll { col }, range, merge);
}

/// Deleting a range of keys deletes its start and leaves its end, and leaves all keys outside
/// of it.
pub proof fn law_delete_range_leaves_end(
    db: Contents,
    col: DBCol,
    from: Seq<u8>,
    to: Seq<u8>,
    merge: MergeFn,
)
    ensures
        ({
            let after = after_batch(
                db,
                op_batch(OpView::DeleteRange { col, from, to }, None),
                merge,
            );
            &&& key_before(from, to) ==> value_at(after, col, from) is None
            &&& value_at(after, col, to) == value_at(db, col, to)
            &&& forall|c: DBCol, key: Seq<u8>| #[trigger]
                value_at(after, c, key) == if c == col && in_range(key, from, to) {
                    None
                } else {
                    value_at(db, c, key)
                }
        }),
{
    law_operation_carried_out(db, OpView::DeleteRange { col, from, to }, None, merge);
    lemma_key_before_irreflexive(from);
    lemma_key_before_irreflexive(to);
}

/// A value that is set or inserted is what the key has afterwards; every other key has what it
/// had.
pub proof fn law_set_value_is_read_back(
    db: Contents,
    col: DBCol,
    key: Seq<u8>,
    value: Seq<u8>,
    merge: MergeFn,
)
    ensures
        ({
            let set = after_batch(db, op_batch(OpView::SetValue { col, key, value }, None), merge);
            let inserted = after_batch(
                db,
                op_batch(OpView::Insert { col, key, value }, None),
                merge,
            );
            &&& set == inserted
            &&& forall|c: DBCol, k: Seq<u8>| #[trigger]
                value_at(set, c, k) == if c == col && k == key {
                    Some(value)
                } else {
                    value_at(db, c, k)
                }
        }),
{
    law_operation_carried_out(db, OpView::SetValue { col, key, value }, None, merge);
    law_operation_carried_out(db, OpView::Insert { col, key, value }, None, merge);
}

/// A key that is deleted has no value afterwards; every other key has what it had.
pub proof fn law_deleted_key_has_no_value(
    db: Contents,
    col: DBCol,
    key: Seq<u8>,
    merge: MergeFn,
)
    ensures
        ({
            let after = after_batch(db, op_batch(OpView::Delete { col, key }, None), merge);
            forall|c: DBCol, k: Seq<u8>| #[trigger]
                value_at(after, c, k) == if c == col && k == key {
                    None
                } else {
                    value_at(db, c, k)
                }
        }),
{
    law_operation_carried_out(db, OpView::Delete { col, key }, None, merge);
}

/// `range` is what reading for `request` gives where the database holds `db`: the range of keys
/// of a column where that was asked for, and no range where it was not.
pub open spec fn answers(
    request: ReadRequest,
    range: Option<(Seq<u8>, Seq<u8>)>,
    db: Contents,
) -> bool {
    match request {
        ReadRequest::KeyRange { col } => is_range_of(range, keys_of(db, col)),
        _ => range is None,
    }
}

/// The reads that are planned for a transaction, whether or not insertions are checked, are
/// enough to carry it out: where each is answered from the database before the transaction, and
/// no column is emptied after the transaction put something into it, the batch makes of the
/// database what the operations are meant to make of it.
pub proof fn law_planned_reads_suffice(
    db: Contents,
    ops: Seq<OpView>,
    requests: Seq<ReadRequest>,
    checked: bool,
    ranges: Seq<Option<(Seq<u8>, Seq<u8>)>>,
    merge: MergeFn,
)
    requires
        requests.len() == ops.len(),
        ranges.len() == ops.len(),
        forall|i: int|
            0 <= i < ops.len() ==> is_read_for(#[trigger] requests[i], ops[i], checked) && answers(
                requests[i],
                ranges[i],
                db,
            ),
        forall|i: int, j: int|
            0 <= j < i < ops.len() && (#[trigger] ops[i]) is DeleteAll ==> !adds_to(
                #[trigger] ops[j],
                ops[i].column(),
            ),
    ensures
        after_batch(db, transaction_batch(ops, ranges), merge) == after_ops(db, ops, merge),
{
    assert forall|i: int| 0 <= i < ops.len() && (#[trigger] ops[i]) is DeleteAll implies is_range_of(
        ranges[i],
        keys_of(db, ops[i].column()),
    ) by {
        assert(answers(requests[i], ranges[i], db));
    }
    law_transaction_with_ranges_read_before(db, ops, ranges, merge);
}

/// Checking changes only what is read before insertions: an insertion has the value of its own
/// key read where it is checked and nothing where it is not, the deletion of a column always has
/// the range of that column read, and no other operation has anything read.
pub proof fn law_checking_changes_insertions_only(
    op: OpView,
    with_checks: ReadRequest,
    without_checks: ReadRequest,
)
    requires
        is_read_for(with_checks, op, true),
        is_read_for(without_checks, op, false),
    ensures
        op !is Insert ==> with_checks == without_checks,
        op matches OpView::Insert { col, key, .. } ==> {
            &&& without_checks == ReadRequest::Nothing
            &&& with_checks matches ReadRequest::OldValue { col: c, key: k }
            &&& c == col
            &&& k@ == key
        },
        op matches OpView::DeleteAll { col } ==> without_checks == (ReadRequest::KeyRange { col }),
        op !is Insert && op !is DeleteAll ==> with_checks == ReadRequest::Nothing,
{
}

/// Updating a reference count merges the value into what the key has; every other key has what
/// it had.
pub proof fn law_refcount_update_is_merged(
    db: Contents,
    col: DBCol,
    key: Seq<u8>,
    value: Seq<u8>,
    merge: MergeFn,
)
    ensures
        ({
            let after = after_batch(
                db,
                op_batch(OpView::UpdateRefcount { col, key, value }, None),
                merge,
            );
            forall|c: DBCol, k: Seq<u8>| #[trigger]
                value_at(after, c, k) == if c == col && k == key {
                    merge(value_at(db, col, key), value)
                } else {
                    value_at(db, c, k)
                }
        }),
{
    law_operation_carried_out(db, OpView::UpdateRefcount { col, key, value }, None, merge);
}

/// The column that a write is on.
pub open spec fn write_column(write: BatchOpView) -> DBCol {
    match write {
        BatchOpView::Put { col, .. } => col,
        BatchOpView::Merge { col, .. } => col,
        BatchOpView::Delete { col, .. } => col,
        BatchOpView::DeleteRange { col, .. } => col,
    }
}

/// A transaction that empties no column is carried out by as many writes as it has operations,
/// each on the column of its operation.
pub proof fn law_one_write_per_operation(
    ops: Seq<OpView>,
    ranges: Seq<Option<(Seq<u8>, Seq<u8>)>>,
)
    requires
        ranges.len() == ops.len(),
        forall|i: int| 0 <= i < ops.len() ==> (#[trigger] ops[i]) !is DeleteAll,
    ensures
        transaction_batch(ops, ranges).len() == ops.len(),
        forall|i: int|
            0 <= i < ops.len() ==> write_column(#[trigger] transaction_batch(ops, ranges)[i])
                == ops[i].column(),
    decreases ops.len(),
{
    if ops.len() > 0 {
        let rest = ops.drop_last();
        assert forall|i: int| 0 <= i < rest.len() implies (#[trigger] rest[i]) !is DeleteAll by {
            assert(rest[i] == ops[i]);
        }
        law_one_write_per_operation(rest, ranges.drop_last());
        let before = transaction_batch(rest, ranges.drop_last());
        assert(ops[ops.len() - 1] !is DeleteAll);
        assert forall|i: int| 0 <= i < ops.len() implies write_column(
            #[trigger] transaction_batch(ops, ranges)[i],
        ) == ops[i].column() by {
            if i < rest.len() {
                assert(transaction_batch(ops, ranges)[i] == before[i]);
            }
        }
    }
}

proof fn lemma_other_column_unwritten(
    db: Contents,
    batch: Seq<BatchOpView>,
    col: DBCol,
    key: Seq<u8>,
    merge: MergeFn,
)
    requires
        forall|i: int| 0 <= i < batch.len() ==> write_column(#[trigger] batch[i]) != col,
    ensures
        value_at(after_batch(db, batch, merge), col, key) == value_at(db, col, key),
    decreases batch.len(),
{
    if batch.len() > 0 {
        let rest = batch.drop_last();
        assert forall|i: int| 0 <= i < rest.len() implies write_column(#[trigger] rest[i]) != col by {
            assert(rest[i] == batch[i]);
        }
        lemma_other_column_unwritten(db, rest, col, key, merge);
        assert(write_column(batch[batch.len() - 1]) != col);
    }
}

/// A transaction leaves every column that none of its operations is on as it was.
pub proof fn law_other_columns_untouched(
    db: Contents,
    ops: Seq<OpView>,
    ranges: Seq<Option<(Seq<u8>, Seq<u8>)>>,
    col: DBCol,
    key: Seq<u8>,
    merge: MergeFn,
)
    requires
        ranges.len() == ops.len(),
        forall|i: int| 0 <= i < ops.len() ==> (#[trigger] ops[i]).column() != col,
    ensures
        value_at(after_batch(db, transaction_batch(ops, ranges), merge), col, key) == value_at(
            db,
            col,
            key,
        ),
    decreases ops.len(),
{
    if ops.len() > 0 {
        let (rest, last) = (ops.drop_last(), ops.last());
        assert forall|i: int| 0 <= i < rest.len() implies (#[trigger] rest[i]).column() != col by {
            assert(rest[i] == ops[i]);
        }
        law_other_columns_untouched(db, rest, ranges.drop_last(), col, key, merge);
        let batch = transaction_batch(rest, ranges.drop_last());
        let writes = op_batch(last, ranges.last());
        lemma_after_batch_append(db, batch, writes, merge);
        assert(ops[ops.len() - 1].column() != col);
        lemma_other_column_unwritten(after_batch(db, batch, merge), writes, col, key, merge);
    }
}

/// Nothing of an operation is lost in its view: column, key and value are those it holds.
pub proof fn law_operations_are_seen_whole(op: DBOp)
    ensures
        match op {
            DBOp::SetValue { col, key, value } => op@ == (OpView::SetValue {
                col,
                key: key@,
                value: value@,
            }),
            DBOp::Insert { col, key, value } => op@ == (OpView::Insert {
                col,
                key: key@,
                value: value@,
            }),
            DBOp::UpdateRefcount { col, key, value } => op@ == (OpView::UpdateRefcount {
                col,
                key: key@,
                value: value@,
            }),
            DBOp::Delete { col, key } => op@ == (OpView::Delete { col, key: key@ }),
            DBOp::DeleteAll { col } => op@ == (OpView::DeleteAll { col }),
            DBOp::DeleteRange { col, from, to } => op@ == (OpView::DeleteRange {
                col,
                from: from@,
                to: to@,
            }),
        },
        op@.column() == match op {
            DBOp::SetValue { col, .. } => col,
            DBOp::Insert { col, .. } => col,
            DBOp::UpdateRefcount { col, .. } => col,
            DBOp::Delete { col, .. } => col,
            DBOp::DeleteAll { col } => col,
            DBOp::DeleteRange { col, .. } => col,
        },
{
}

/// Nothing of a transaction or of a batch is lost in its view: every operation, write and range
/// is there, in order, with the bytes that it holds.
pub proof fn law_batches_are_seen_whole(
    transaction: DBTransaction,
    batch: Seq<BatchOp>,
    ranges: Seq<Option<KeyRange>>,
)
    ensures
        transaction@.len() == transaction.ops@.len(),
        forall|i: int|
            0 <= i < transaction.ops@.len() ==> #[trigger] transaction@[i] == transaction.ops@[i]@,
        batch_view(batch).len() == batch.len(),
        forall|i: int|
            0 <= i < batch.len() ==> #[trigger] batch_view(batch)[i] == match batch[i] {
                BatchOp::Put { col, key, value } => BatchOpView::Put {
                    col,
                    key: key@,
                    value: value@,
                },
                BatchOp::Merge { col, key, value } => BatchOpView::Merge {
                    col,
                    key: key@,
                    value: value@,
                },
                BatchOp::Delete { col, key } => BatchOpView::Delete { col, key: key@ },
                BatchOp::DeleteRange { col, from, to } => BatchOpView::DeleteRange {
                    col,
                    from: from@,
                    to: to@,
                },
            },
        ranges_view(ranges).len() == ranges.len(),
        forall|i: int|
            0 <= i < ranges.len() ==> #[trigger] ranges_view(ranges)[i] == match ranges[i] {
                Some(range) => Some((range.start@, range.end@)),
                None => None,
            },
{
}

} // verus!
