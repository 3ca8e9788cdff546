//! Which columns a database instance is set up to access, and where their column families are.
use enum_map::EnumMap;
use vstd::prelude::*;

use crate::column::{all_columns, law_every_column_listed_once, variant_text, DBCol};
use crate::error::{other_error, StoreError};

verus! {

/// A slot, or none, for each key, in an `enum_map::EnumMap`. A key is the position of a column.
#[verifier::external_body]
pub struct SlotMap {
    map: EnumMap<u8, Option<usize>>,
}

/// What the map holds for each key.
pub uninterp spec fn slots(m: SlotMap) -> Map<u8, Option<usize>>;

/// No slot for any key.
spec fn no_slots() -> Map<u8, Option<usize>> {
    Map::new(|k: u8| true, |k: u8| None)
}

/// `EnumMap::default` holds the default value, which is none, for every key.
#[verifier::external_body]
fn empty_slots() -> (r: SlotMap)
    ensures
        slots(r) == no_slots(),
{
    SlotMap { map: EnumMap::default() }
}

/// Indexing an `EnumMap` gives what it holds for the key. Every `u8` is a key.
#[verifier::external_body]
fn get_slot(m: &SlotMap, key: u8) -> (r: Option<usize>)
    ensures
        r == slots(*m)[key],
{
    m.map[key]
}

/// Assigning to an indexed `EnumMap` changes what it holds for that key and for no other.
#[verifier::external_body]
fn set_slot(m: &mut SlotMap, key: u8, slot: Option<usize>)
    ensures
        slots(*final(m)) == slots(*old(m)).insert(key, slot),
{
    m.map[key] = slot;
}

/// Mapping from [`DBCol`] to the column family to use with the database.
///
/// A column family is given by its position in the list of columns with which the database was
/// opened.
pub struct CfHandles {
    slots: SlotMap,
}

impl View for CfHandles {
    type V = Map<DBCol, usize>;

    closed spec fn view(&self) -> Map<DBCol, usize> {
        Map::new(
            |col: DBCol| slots(self.slots)[col.ordinal() as u8] is Some,
            |col: DBCol| slots(self.slots)[col.ordinal() as u8]->0,
        )
    }
}

/// The position of each column in `columns`; of one that is listed more than once, the last.
pub open spec fn positions(columns: Seq<DBCol>) -> Map<DBCol, usize>
    decreases columns.len(),
{
    if columns.len() == 0 {
        Map::empty()
    } else {
        positions(columns.drop_last()).insert(columns.last(), (columns.len() - 1) as usize)
    }
}

/// The columns of `columns` that `handles` has, with their handles.
pub open spec fn handle_list(handles: Map<DBCol, usize>, columns: Seq<DBCol>) -> Seq<(DBCol, usize)>
    decreases columns.len(),
{
    if columns.len() == 0 {
        Seq::empty()
    } else {
        let rest = handle_list(handles, columns.drop_last());
        if handles.contains_key(columns.last()) {
            rest.push((columns.last(), handles[columns.last()]))
        } else {
            rest
        }
    }
}

/// What is said of a column that the database is not set up to access.
pub open spec fn no_such_column_text(col: DBCol) -> Seq<char> {
    variant_text(col) + ": no such column"@
}

proof fn lemma_same_ordinal(a: DBCol, b: DBCol)
    ensures
        a.ordinal() as u8 == b.ordinal() as u8 ==> a == b,
{
    law_every_column_listed_once(a);
    law_every_column_listed_once(b);
}

/// Returns mapping from [`DBCol`] to the position of the column in `columns`.
///
/// The mapping is created for column families given in the `columns` list only.
pub fn get_cf_handles(columns: &Vec<DBCol>) -> (r: CfHandles)
    ensures
        r@ == positions(columns@),
{
    let mut handles = CfHandles { slots: empty_slots() };
    let mut i: usize = 0;
    assert(handles@ =~= positions(columns@.take(0)));
    while i < columns.len()
        invariant
            i <= columns.len(),
            handles@ == positions(columns@.take(i as int)),
        decreases columns.len() - i,
    {
        let ghost before = handles@;
        let col = columns[i];
        set_slot(&mut handles.slots, col.index() as u8, Some(i));
        proof {
            assert(columns@.take(i + 1).drop_last() =~= columns@.take(i as int));
            assert forall|c: DBCol| c != col implies c.ordinal() as u8 != col.ordinal() as u8 by {
                lemma_same_ordinal(c, col);
            }
            assert(handles@ =~= before.insert(col, i));
        }
        i += 1;
    }
    assert(columns@.take(i as int) =~= columns@);
    handles
}

/// The error of a column that the database is not set up to access.
pub fn no_such_column(col: DBCol) -> (r: StoreError)
    ensures
        r.message@ == no_such_column_text(col),
{
    let mut message = col.variant_name().to_string();
    message.append(": no such column");
    other_error(message)
}

impl CfHandles {
    /// Returns the handle of the column family of given column.
    ///
    /// If the database has not been set up to access given column, returns an error.
    pub fn cf_handle(&self, col: DBCol) -> (r: Result<usize, StoreError>)
        ensures
            match r {
                Ok(slot) => self@.contains_key(col) && slot == self@[col],
                Err(e) => !self@.contains_key(col) && e.message@ == no_such_column_text(col),
            },
    {
        match get_slot(&self.slots, col.index() as u8) {
            Some(slot) => Ok(slot),
            None => Err(no_such_column(col)),
        }
    }

    /// Returns all column families and their handles.
    ///
    /// This is kind of like going over all [`DBCol`] variants and calling [`Self::cf_handle`]
    /// except that column families that the database instance isn't set up to handle are left
    /// out.
    pub fn cf_handles(&self) -> (r: Vec<(DBCol, usize)>)
        ensures
            r@ == handle_list(self@, all_columns()),
    {
        let columns = DBCol::iter();
        let mut out: Vec<(DBCol, usize)> = Vec::new();
        let mut i: usize = 0;
        assert(out@ =~= handle_list(self@, columns@.take(0)));
        while i < columns.len()
            invariant
                i <= columns.len(),
                out@ == handle_list(self@, columns@.take(i as int)),
            decreases columns.len() - i,
        {
            assert(columns@.take(i + 1).drop_last() =~= columns@.take(i as int));
            if let Ok(slot) = self.cf_handle(columns[i]) {
                out.push((columns[i], slot));
            }
            i += 1;
        }
        assert(columns@.take(i as int) =~= columns@);
        out
    }

    /// Lists the columns that an operation on all columns goes through, in order: every column
    /// up to the first that the database is not set up to access, and the error with which the
    /// operation stops there.
    pub fn reachable_columns(&self) -> (r: (Vec<DBCol>, Option<StoreError>))
        ensures
            r.0@.len() <= all_columns().len(),
            r.0@ == all_columns().take(r.0@.len() as int),
            forall|i: int| 0 <= i < r.0@.len() ==> self@.contains_key(#[trigger] r.0@[i]),
            match r.1 {
                Some(e) => {
                    &&& r.0@.len() < all_columns().len()
                    &&& !self@.contains_key(all_columns()[r.0@.len() as int])
                    &&& e.message@ == no_such_column_text(all_columns()[r.0@.len() as int])
                },
                None => r.0@.len() == all_columns().len(),
            },
    {
        let columns = DBCol::iter();
        let mut out: Vec<DBCol> = Vec::new();
        let mut i: usize = 0;
        while i < columns.len()
            invariant
                columns@ == all_columns(),
                i <= columns.len(),
                out@ == columns@.take(i as int),
                forall|j: int| 0 <= j < i ==> self@.contains_key(#[trigger] columns@[j]),
            decreases columns.len() - i,
        {
            if let Err(e) = self.cf_handle(columns[i]) {
                return (out, Some(e));
            }
            out.push(columns[i]);
            i += 1;
            assert(columns@.take(i as int) =~= columns@.take(i - 1).push(columns@[i - 1]));
        }
        (out, None)
    }
}

/// The columns with which a database is opened are those that it can access; the handle of
/// each leads back to it.
pub proof fn law_opened_columns_have_handles(columns: Seq<DBCol>, col: DBCol)
    requires
        columns.len() <= usize::MAX,
    ensures
        positions(columns).contains_key(col) <==> columns.contains(col),
        positions(columns).contains_key(col) ==> positions(columns)[col] < columns.len()
            && columns[positions(columns)[col] as int] == col,
    decreases columns.len(),
{
    if columns.len() > 0 {
        let rest = columns.drop_last();
        law_opened_columns_have_handles(rest, col);
        if columns.contains(col) {
            let i = choose|i: int| 0 <= i < columns.len() && columns[i] == col;
            if i < rest.len() {
                assert(rest[i] == col);
            }
        }
        if rest.contains(col) {
            let i = choose|i: int| 0 <= i < rest.len() && rest[i] == col;
            assert(columns[i] == col);
        }
        assert(columns[columns.len() - 1] == columns.last());
    }
}

/// The list of column families holds exactly the columns that the database can access, each
/// with its handle.
pub proof fn law_handle_list_agrees_with_handles(handles: Map<DBCol, usize>, col: DBCol, slot: usize)
    ensures
        handle_list(handles, all_columns()).contains((col, slot)) <==> handles.contains_key(col)
            && handles[col] == slot,
{
    law_every_column_listed_once(col);
    lemma_handle_list(handles, all_columns(), col, slot);
    assert(all_columns()[col.ordinal() as int] == col);
}

proof fn lemma_handle_list(
    handles: Map<DBCol, usize>,
    columns: Seq<DBCol>,
    col: DBCol,
    slot: usize,
)
    ensures
        handle_list(handles, columns).contains((col, slot)) <==> columns.contains(col)
            && handles.contains_key(col) && handles[col] == slot,
    decreases columns.len(),
{
    if columns.len() > 0 {
        let rest = columns.drop_last();
        let last = columns.last();
        let list = handle_list(handles, rest);
        lemma_handle_list(handles, rest, col, slot);
        assert(columns =~= rest.push(last));
        assert(columns.contains(col) <==> rest.contains(col) || col == last) by {
            if rest.contains(col) {
                let i = choose|i: int| 0 <= i < rest.len() && rest[i] == col;
                assert(columns[i] == col);
            }
            assert(columns[columns.len() - 1] == last);
        }
        if handles.contains_key(last) {
            let longer = list.push((last, handles[last]));
            assert(longer[longer.len() - 1] == (last, handles[last]));
            assert(longer.contains((col, slot)) <==> list.contains((col, slot)) || (col, slot) == (
                last,
                handles[last],
            )) by {
                if list.contains((col, slot)) {
                    let i = choose|i: int| 0 <= i < list.len() && list[i] == (col, slot);
                    assert(longer[i] == (col, slot));
                }
            }
        }
    }
}

/// Of a column that is listed more than once, the handle leads to the last place where it is
/// listed.
pub proof fn law_last_place_counts(columns: Seq<DBCol>, i: int)
    requires
        columns.len() <= usize::MAX,
        0 <= i < columns.len(),
    ensures
        positions(columns).contains_key(columns[i]),
        i <= positions(columns)[columns[i]] < columns.len(),
    decreases columns.len(),
{
    if i < columns.len() - 1 {
        law_last_place_counts(columns.drop_last(), i);
    }
}

/// The list of column families goes through the columns in their order, and lists none twice.
pub proof fn law_handle_list_is_in_order(handles: Map<DBCol, usize>)
    ensures
        forall|i: int, j: int|
            0 <= i < j < handle_list(handles, all_columns()).len() ==> (#[trigger] handle_list(
                handles,
                all_columns(),
            )[i]).0.ordinal() < (#[trigger] handle_list(handles, all_columns())[j]).0.ordinal(),
{
    assert(all_columns().take(all_columns().len() as int) =~= all_columns());
    lemma_handle_list_in_order(handles, all_columns().len() as int);
}

proof fn lemma_handle_list_in_order(handles: Map<DBCol, usize>, n: int)
    requires
        0 <= n <= all_columns().len(),
    ensures
        ({
            let list = handle_list(handles, all_columns().take(n));
            &&& forall|i: int| 0 <= i < list.len() ==> (#[trigger] list[i]).0.ordinal() < n
            &&& forall|i: int, j: int|
                0 <= i < j < list.len() ==> (#[trigger] list[i]).0.ordinal() < (
                #[trigger] list[j]).0.ordinal()
        }),
    decreases n,
{
    if n > 0 {
        lemma_handle_list_in_order(handles, n - 1);
        assert(all_columns().take(n).drop_last() =~= all_columns().take(n - 1));
        let last = all_columns()[n - 1];
        law_every_column_listed_once(last);
        assert(last.ordinal() == n - 1);
        let columns = all_columns().take(n);
        let rest = handle_list(handles, columns.drop_last());
        let list = handle_list(handles, columns);
        assert(columns.last() == last);
        assert forall|i: int, j: int| 0 <= i < j < list.len() implies (
        #[trigger] list[i]).0.ordinal() < (#[trigger] list[j]).0.ordinal() by {
            assert(list[i] == rest[i]);
            if j < rest.len() {
                assert(list[j] == rest[j]);
            }
        }
        assert forall|i: int| 0 <= i < list.len() implies (#[trigger] list[i]).0.ordinal() < n by {
            if i < rest.len() {
                assert(list[i] == rest[i]);
            }
        }
    }
}

/// What is said of a column that cannot be accessed names the column and ends in the same words
/// for every column.
pub proof fn law_refusal_names_the_column(col: DBCol)
    ensures
        ({
            let text = no_such_column_text(col);
            let name = variant_text(col);
            &&& text.take(name.len() as int) == name
            &&& text.skip(name.len() as int) == ": no such column"@
        }),
{
    let text = no_such_column_text(col);
    let name = variant_text(col);
    assert(text.take(name.len() as int) =~= name);
    assert(text.skip(name.len() as int) =~= ": no such column"@);
}

} // verus!
