use database_api::TableError;
use database_api::cell_map::CellMap;
use database_api::column::Column;
use database_api::key_set::KeyList;
use database_api::key_set::KeySet;
use database_api::key_value_map::KeyValueMap;
use database_api::keys::KeyIndex;
use database_api::keys::Keys;
use database_api::lock::Lock;
use database_api::lock::RwCell;
use database_api::next_key::NextKey;
use database_api::next_key::NextKeyIterator;
use database_api::row::Row;
use database_api::row::RowField;

#[test]
fn generator_never_repeats_a_key() {
    let mut generator = NextKeyIterator::new(0);
    let mut drawn: Vec<u64> = Vec::new();
    for _ in 0..100 {
        drawn.push(generator.next().unwrap());
    }
    for i in 0..drawn.len() {
        for j in (i + 1)..drawn.len() {
            assert_ne!(drawn[i], drawn[j]);
        }
    }
}

#[test]
fn generator_starts_where_told_and_counts_up() {
    let mut generator = NextKeyIterator::new(7);
    assert_eq!(generator.next_key(), 7);
    assert_eq!(generator.next_key(), 8);
    assert_eq!(generator.next(), Some(9));
}

#[test]
fn key_index_counts_inserts_minus_removes() {
    let mut key_index = KeyIndex::new();
    let shape_id = 4u64;
    // 5 inserts, 2 removes, distinct keys: 3 entries left.
    for key in 0..5u64 {
        key_index.insert_key(shape_id, key);
    }
    key_index.remove_key(shape_id, 1).unwrap();
    key_index.remove_key(shape_id, 4).unwrap();
    assert_eq!(key_index.keys(shape_id).unwrap().len(), 3);
}

#[test]
fn key_index_bulk_extend_equals_single_inserts() {
    let mut bulk = KeyIndex::new();
    bulk.extend_keys(2, vec![5, 6, 7]);
    let mut single = KeyIndex::new();
    for key in [5u64, 6, 7] {
        single.insert_key(2, key);
    }
    let mut bulk_keys = bulk.keys(2).unwrap();
    let mut single_keys = single.keys(2).unwrap();
    bulk_keys.sort();
    single_keys.sort();
    assert_eq!(bulk_keys, single_keys);
}

#[test]
fn key_index_rejects_unregistered_shape() {
    let mut key_index = KeyIndex::new();
    key_index.insert_key(1, 10);
    assert_eq!(key_index.keys(9), Err(TableError::UnknownColumnSet));
    assert_eq!(key_index.remove_key(9, 10), Err(TableError::UnknownColumnSet));
    assert_eq!(key_index.has_key(9, 10), Err(TableError::UnknownColumnSet));
    assert_eq!(key_index.has_key(1, 10), Ok(true));
}

#[test]
fn key_index_registration_is_idempotent() {
    let mut key_index = KeyIndex::new();
    key_index.register(3);
    key_index.register(3);
    assert_eq!(key_index.keys(3).unwrap(), Vec::<u64>::new());
}

#[test]
fn disjoint_keys_in_one_column_hold_cell_locks_together() {
    // Two sessions on one column, disjoint keys: once both passed
    // outer-lock admission (two shared holds), each takes its own
    // cell's exclusive hold without the other being released.
    let mut ints: Column<u32> = Column::new(0);
    ints.write_cell_map();
    ints.insert(1, 100);
    ints.insert(2, 200);
    ints.release_write_cell_map();

    ints.read_cell_map(); // session one's outer hold
    ints.read_cell_map(); // session two's outer hold
    assert!(ints.write_cell(1)); // session one holds key 1's cell
    assert!(ints.write_cell(2)); // session two holds key 2's cell concurrently
    ints.set_value(1, 101);
    ints.set_value(2, 201);
    assert_eq!(*ints.read_value(1), 101);
    assert_eq!(*ints.read_value(2), 201);
    ints.release_write_cell(1);
    ints.release_write_cell(2);
    ints.release_read_cell_map();
    ints.release_read_cell_map();
}

#[test]
fn rw_cell_wraps_and_releases() {
    let mut cell: RwCell<u32> = RwCell::from_value(9);
    cell.read();
    assert_eq!(*cell.get(), 9);
    cell.release_read();
    cell.write();
    cell.set(11);
    assert_eq!(*cell.get(), 11);
    cell.release_write();
    assert_eq!(cell.into_inner(), 11);
}

#[test]
fn key_list_tracks_membership() {
    let mut list = KeyList::empty();
    assert!(list.insert(4));
    assert!(!list.insert(4));
    list.extend(vec![5, 6]);
    assert!(list.contains(5));
    assert!(list.remove(5));
    assert!(!list.remove(5));
    let mut members = list.iter();
    members.sort();
    assert_eq!(members, vec![4, 6]);
}

#[test]
fn cell_map_upserts_and_removes() {
    let mut cells: CellMap<u32> = CellMap::new();
    assert!(cells.insert(1, 10).is_none());
    let evicted = cells.insert(1, 11).unwrap();
    assert_eq!(evicted.into_inner(), 10);
    assert!(cells.get(1).is_some());
    assert!(cells.get(2).is_none());
    assert_eq!(cells.remove(1).unwrap().into_inner(), 11);
    assert!(cells.remove(1).is_none());
}

#[test]
fn cell_map_cell_locking_reads_and_writes() {
    let mut cells: CellMap<u32> = CellMap::new();
    cells.extend(vec![(1, 10), (2, 20)]);
    assert!(cells.read_cell(1));
    assert_eq!(*cells.read_value(1), 10);
    cells.release_read_cell(1);
    assert!(cells.write_cell(2));
    cells.set_value(2, 21);
    assert_eq!(*cells.read_value(2), 21);
    cells.release_write_cell(2);
    assert!(!cells.read_cell(3));
    let mut keys = cells.keys();
    keys.sort();
    assert_eq!(keys, vec![1, 2]);
}

#[test]
fn cell_map_as_key_value_map_of_cells() {
    let mut cells: CellMap<u32> = <CellMap<u32> as KeyValueMap<RwCell<u32>>>::empty();
    let prev = KeyValueMap::insert(&mut cells, 1, RwCell::from_value(5));
    assert!(prev.is_none());
    KeyValueMap::extend(&mut cells, vec![(2, RwCell::from_value(6))]);
    assert!(KeyValueMap::get(&cells, 1).is_some());
    assert!(KeyValueMap::get(&cells, 3).is_none());
    let removed = KeyValueMap::remove(&mut cells, 2).unwrap();
    assert_eq!(removed.into_inner(), 6);
    assert_eq!(KeyValueMap::keys(&cells), vec![1]);
}

#[test]
fn column_requires_write_lock_only_for_structure() {
    let mut ints: Column<u32> = Column::new(0);
    assert_eq!(ints.canonical_id(), 0);
    ints.write_cell_map();
    ints.insert(1, 5);
    ints.release_write_cell_map();
    // Value mutation under the coarse read lock plus the cell's write hold.
    ints.read_cell_map();
    assert!(ints.has_key(1));
    assert!(!ints.has_key(2));
    assert!(ints.write_cell(1));
    ints.set_value(1, 6);
    ints.release_write_cell(1);
    assert_eq!(ints.keys(), vec![1]);
    ints.release_read_cell_map();
}

#[test]
fn sessions_acquire_in_canonical_order_from_either_field_order() {
    // A shape declaring its columns against canonical order still locks
    // and releases both columns.
    let mut low: Column<u32> = Column::new(0);
    let mut high: Column<u32> = Column::new(1);
    let mut key_index = KeyIndex::new();
    let inverted = Row {
        id: 0,
        first: RowField { column: 1, writable: true },
        second: RowField { column: 0, writable: true },
    };
    inverted.write_columns(&mut high, &mut low);
    inverted.insert(&mut key_index, &mut high, &mut low, 0, (1, 2));
    inverted.release_write_columns(&mut high, &mut low);
    let shape = Row {
        id: 0,
        first: RowField { column: 0, writable: false },
        second: RowField { column: 1, writable: false },
    };
    shape.read_columns(&mut low, &mut high);
    assert_eq!(shape.get_row(&mut low, &mut high, 0), Ok(()));
    assert_eq!(*low.read_value(0), 2);
    assert_eq!(*high.read_value(0), 1);
    shape.release_row(&mut low, &mut high, 0);
    shape.release_read_columns(&mut low, &mut high);
}

#[test]
fn two_reading_sessions_share_one_cell() {
    // A read-only field takes a shared cell hold: two sessions fetching
    // the same key both succeed before either releases.
    let mut ints: Column<u32> = Column::new(0);
    let mut floats: Column<u32> = Column::new(1);
    let mut key_index = KeyIndex::new();
    let shape = Row {
        id: 0,
        first: RowField { column: 0, writable: false },
        second: RowField { column: 1, writable: false },
    };
    shape.write_columns(&mut ints, &mut floats);
    shape.insert(&mut key_index, &mut ints, &mut floats, 0, (1, 2));
    shape.release_write_columns(&mut ints, &mut floats);

    shape.read_columns(&mut ints, &mut floats); // session one
    shape.read_columns(&mut ints, &mut floats); // session two
    assert_eq!(shape.get_row(&mut ints, &mut floats, 0), Ok(())); // session one's holds
    assert_eq!(shape.get_row(&mut ints, &mut floats, 0), Ok(())); // session two's holds
    assert_eq!(*ints.read_value(0), 1);
    shape.release_row(&mut ints, &mut floats, 0);
    shape.release_row(&mut ints, &mut floats, 0);
    shape.release_read_columns(&mut ints, &mut floats);
    shape.release_read_columns(&mut ints, &mut floats);
}
