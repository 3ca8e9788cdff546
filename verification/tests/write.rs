use std::collections::BTreeMap;

use near_store::column::DBCol;
use near_store::handles::{get_cf_handles, CfHandles};
use near_store::iterate::{key_range, KeyRange};
use near_store::write::{plan_reads, write_batch, BatchOp, DBOp, DBTransaction, ReadRequest};

/// A database in memory. It carries out reads and writes one by one.
struct Memory {
    handles: CfHandles,
    values: BTreeMap<(usize, Vec<u8>), Vec<u8>>,
}

impl Memory {
    fn new(columns: &Vec<DBCol>) -> Memory {
        Memory { handles: get_cf_handles(columns), values: BTreeMap::new() }
    }

    fn range(&self, col: DBCol) -> Option<KeyRange> {
        let keys: Vec<Vec<u8>> = self
            .values
            .keys()
            .filter(|(c, _)| *c == col.index())
            .map(|(_, key)| key.clone())
            .collect();
        key_range(keys.first().cloned(), keys.last().cloned())
    }

    fn apply(&mut self, write: BatchOp) {
        match write {
            BatchOp::Put { col, key, value } => {
                self.values.insert((col.index(), key), value);
            }
            // Values are merged by adding their first bytes up.
            BatchOp::Merge { col, key, value } => {
                let old = self.values.entry((col.index(), key)).or_insert(vec![0]);
                old[0] += value[0];
            }
            BatchOp::Delete { col, key } => {
                self.values.remove(&(col.index(), key));
            }
            BatchOp::DeleteRange { col, from, to } => {
                let i = col.index();
                self.values.retain(|(c, key), _| *c != i || *key < from || *key >= to);
            }
        }
    }

    fn commit(&mut self, ops: Vec<DBOp>) -> Result<(), String> {
        let transaction = DBTransaction { ops };
        let (requests, error) = plan_reads(&self.handles, &transaction, true);
        let mut ranges = vec![];
        for request in requests {
            match request {
                ReadRequest::KeyRange { col } => ranges.push(self.range(col)),
                ReadRequest::OldValue { col, key } => {
                    assert!(!self.has_key(col, &key));
                    ranges.push(None);
                }
                ReadRequest::Nothing => ranges.push(None),
            }
        }
        if let Some(error) = error {
            return Err(error.message);
        }
        for write in write_batch(transaction, &ranges) {
            self.apply(write);
        }
        Ok(())
    }

    fn has_key(&self, col: DBCol, key: &[u8]) -> bool {
        self.values.contains_key(&(col.index(), key.to_vec()))
    }
}

fn put(col: DBCol, key: &[u8], value: u8) -> DBOp {
    DBOp::SetValue { col, key: key.to_vec(), value: vec![value] }
}

#[test]
fn test_delete_range() {
    let mut store = Memory::new(&DBCol::iter());
    let keys = [vec![0], vec![1], vec![2], vec![3]];
    let column = DBCol::Block;

    let mut store_update = vec![];
    for key in &keys {
        store_update.push(DBOp::Insert { col: column, key: key.clone(), value: vec![42] });
    }
    store.commit(store_update).unwrap();

    let store_update =
        vec![DBOp::DeleteRange { col: column, from: keys[1].clone(), to: keys[3].clone() }];
    store.commit(store_update).unwrap();

    assert_eq!(store.has_key(column, &keys[0]), true);
    assert_eq!(store.has_key(column, &keys[1]), false);
    assert_eq!(store.has_key(column, &keys[2]), false);
    assert_eq!(store.has_key(column, &keys[3]), true);
}

#[test]
fn all_keys_of_a_column_are_deleted() {
    let mut store = Memory::new(&DBCol::iter());
    store
        .commit(vec![
            put(DBCol::Block, &[], 1),
            put(DBCol::Block, &[7], 2),
            put(DBCol::Block, &[255, 255], 3),
            put(DBCol::State, &[7], 4),
        ])
        .unwrap();
    store.commit(vec![DBOp::DeleteAll { col: DBCol::Block }]).unwrap();
    assert_eq!(store.values.len(), 1);
    assert!(store.has_key(DBCol::State, &[7]));
    // Deleting all of an empty column changes nothing.
    store.commit(vec![DBOp::DeleteAll { col: DBCol::Block }]).unwrap();
    assert_eq!(store.values.len(), 1);
}

#[test]
fn deleting_all_keys_takes_two_writes() {
    let transaction = DBTransaction { ops: vec![DBOp::DeleteAll { col: DBCol::Block }] };
    let range = KeyRange { start: vec![1], end: vec![9] };
    assert_eq!(
        write_batch(transaction, &vec![Some(range)]),
        vec![
            BatchOp::DeleteRange { col: DBCol::Block, from: vec![1], to: vec![9] },
            BatchOp::Delete { col: DBCol::Block, key: vec![9] },
        ]
    );
}

#[test]
fn writes_are_in_the_order_of_operations() {
    let (col, key, value) = (DBCol::State, vec![1], vec![2]);
    let transaction = DBTransaction {
        ops: vec![
            DBOp::SetValue { col, key: key.clone(), value: value.clone() },
            DBOp::UpdateRefcount { col, key: key.clone(), value: value.clone() },
            DBOp::Insert { col, key: key.clone(), value: value.clone() },
            DBOp::Delete { col, key: key.clone() },
            DBOp::DeleteAll { col },
            DBOp::DeleteRange { col, from: key.clone(), to: value.clone() },
        ],
    };
    assert_eq!(
        write_batch(transaction, &vec![None, None, None, None, None, None]),
        vec![
            BatchOp::Put { col, key: key.clone(), value: value.clone() },
            BatchOp::Merge { col, key: key.clone(), value: value.clone() },
            BatchOp::Put { col, key: key.clone(), value: value.clone() },
            BatchOp::Delete { col, key: key.clone() },
            BatchOp::DeleteRange { col, from: key, to: value },
        ]
    );
}

#[test]
fn set_values_are_read_back_and_deleted_ones_are_gone() {
    let mut store = Memory::new(&DBCol::iter());
    store.commit(vec![put(DBCol::State, &[1], 5), put(DBCol::State, &[1], 6)]).unwrap();
    assert_eq!(store.values[&(DBCol::State.index(), vec![1])], vec![6]);
    store
        .commit(vec![DBOp::UpdateRefcount { col: DBCol::State, key: vec![1], value: vec![3] }])
        .unwrap();
    assert_eq!(store.values[&(DBCol::State.index(), vec![1])], vec![9]);
    store.commit(vec![DBOp::Delete { col: DBCol::State, key: vec![1] }]).unwrap();
    assert!(!store.has_key(DBCol::State, &[1]));
}

#[test]
fn transactions_on_missing_columns_are_refused() {
    let mut store = Memory::new(&vec![DBCol::State]);
    let refused = store.commit(vec![put(DBCol::State, &[1], 1), put(DBCol::Block, &[1], 1)]);
    assert_eq!(refused, Err("Block: no such column".to_string()));
    assert!(store.values.is_empty());
}

#[test]
fn reads_are_planned_up_to_the_first_missing_column() {
    let handles = get_cf_handles(&vec![DBCol::State]);
    let ops = || {
        vec![
            DBOp::Insert { col: DBCol::State, key: vec![4], value: vec![5] },
            DBOp::DeleteAll { col: DBCol::State },
            DBOp::Delete { col: DBCol::State, key: vec![4] },
            DBOp::DeleteAll { col: DBCol::_Peers },
            DBOp::DeleteAll { col: DBCol::State },
        ]
    };
    let (requests, error) = plan_reads(&handles, &DBTransaction { ops: ops() }, true);
    assert_eq!(
        requests,
        vec![
            ReadRequest::OldValue { col: DBCol::State, key: vec![4] },
            ReadRequest::KeyRange { col: DBCol::State },
            ReadRequest::Nothing,
        ]
    );
    assert_eq!(error.unwrap().message, "_Peers: no such column");

    let (requests, _) = plan_reads(&handles, &DBTransaction { ops: ops() }, false);
    assert_eq!(requests[0], ReadRequest::Nothing);
    let (requests, error) = plan_reads(&handles, &DBTransaction { ops: vec![] }, true);
    assert_eq!((requests, error), (vec![], None));
}

#[test]
fn a_column_can_be_refilled_after_it_is_emptied() {
    let mut store = Memory::new(&DBCol::iter());
    store.commit(vec![put(DBCol::Block, &[3], 1), put(DBCol::Block, &[5], 1)]).unwrap();
    store
        .commit(vec![
            put(DBCol::State, &[4], 2),
            DBOp::Delete { col: DBCol::Block, key: vec![3] },
            DBOp::DeleteAll { col: DBCol::Block },
            put(DBCol::Block, &[4], 2),
        ])
        .unwrap();
    assert_eq!(store.values.len(), 2);
    assert!(store.has_key(DBCol::State, &[4]));
    assert!(store.has_key(DBCol::Block, &[4]));
}
