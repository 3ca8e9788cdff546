use near_store::column::{col_name, DBCol};
use near_store::handles::{get_cf_handles, no_such_column};

#[test]
fn numbered_columns_are_named_by_their_position() {
    for (i, col) in DBCol::iter().into_iter().enumerate() {
        assert_eq!(col.index(), i);
        if i < 50 {
            assert_eq!(col_name(col), format!("col{i}"));
        } else {
            assert_eq!(col_name(col), col.variant_name());
            assert_eq!(col_name(col), format!("{col:?}"));
        }
    }
}

#[test]
fn some_columns_by_name() {
    assert_eq!(col_name(DBCol::DbVersion), "col0");
    assert_eq!(col_name(DBCol::State), "col5");
    assert_eq!(col_name(DBCol::_GCCount), "col41");
    assert_eq!(col_name(DBCol::StateChangesForSplitStates), "col49");
    assert_eq!(col_name(DBCol::FlatState), "FlatState");
}

#[test]
fn no_two_columns_share_a_name() {
    let columns = DBCol::iter();
    for a in &columns {
        for b in &columns {
            assert_eq!(a == b, col_name(*a) == col_name(*b));
        }
        assert_eq!(a.variant_name(), format!("{a:?}"));
    }
}

#[test]
fn opened_columns_have_handles() {
    let handles = get_cf_handles(&vec![DBCol::State, DBCol::Block, DBCol::FlatStorageStatus]);
    assert_eq!(handles.cf_handle(DBCol::State), Ok(0));
    assert_eq!(handles.cf_handle(DBCol::Block), Ok(1));
    assert_eq!(handles.cf_handle(DBCol::FlatStorageStatus), Ok(2));
}

#[test]
fn other_columns_have_none() {
    let handles = get_cf_handles(&vec![DBCol::State]);
    let error = handles.cf_handle(DBCol::_Peers).unwrap_err();
    assert_eq!(error.message, "_Peers: no such column");
    assert_eq!(error, no_such_column(DBCol::_Peers));
    assert_eq!(
        get_cf_handles(&vec![]).cf_handle(DBCol::DbVersion).unwrap_err().message,
        "DbVersion: no such column"
    );
}

#[test]
fn the_last_of_equal_columns_counts() {
    let handles = get_cf_handles(&vec![DBCol::State, DBCol::Block, DBCol::State]);
    assert_eq!(handles.cf_handle(DBCol::State), Ok(2));
    assert_eq!(handles.cf_handle(DBCol::Block), Ok(1));
}

#[test]
fn handles_are_listed_in_the_order_of_columns() {
    let handles = get_cf_handles(&vec![DBCol::FlatState, DBCol::State, DBCol::DbVersion]);
    assert_eq!(
        handles.cf_handles(),
        vec![(DBCol::DbVersion, 2), (DBCol::State, 1), (DBCol::FlatState, 0)]
    );
    assert_eq!(get_cf_handles(&vec![]).cf_handles(), vec![]);
}

#[test]
fn going_over_all_columns_stops_at_the_first_missing_one() {
    let (columns, error) = get_cf_handles(&DBCol::iter()).reachable_columns();
    assert_eq!(columns, DBCol::iter());
    assert_eq!(error, None);

    let handles = get_cf_handles(&vec![DBCol::DbVersion, DBCol::BlockMisc, DBCol::State]);
    let (columns, error) = handles.reachable_columns();
    assert_eq!(columns, vec![DBCol::DbVersion, DBCol::BlockMisc]);
    assert_eq!(error.unwrap().message, "Block: no such column");
}
