use database_api::TableError;
use database_api::column::Column;
use database_api::keys::KeyIndex;
use database_api::keys::Keys;
use database_api::lock::Lock;
use database_api::row::Row;
use database_api::row::RowField;

fn int_float_shape() -> Row {
    Row {
        id: 0,
        first: RowField { column: 0, writable: false },
        second: RowField { column: 1, writable: true },
    }
}

#[test]
fn insert_then_get_row_returns_inserted_values() {
    let mut ints: Column<u32> = Column::new(0);
    let mut floats: Column<f32> = Column::new(1);
    let mut key_index = KeyIndex::new();
    let shape = int_float_shape();

    shape.write_columns(&mut ints, &mut floats);
    shape.insert(&mut key_index, &mut ints, &mut floats, 42, (7, 2.5));
    assert_eq!(shape.get_row(&mut ints, &mut floats, 42), Ok(()));
    assert_eq!(*ints.read_value(42), 7);
    assert_eq!(*floats.read_value(42), 2.5);
    shape.release_row(&mut ints, &mut floats, 42);
    shape.release_write_columns(&mut ints, &mut floats);
}

#[test]
fn insert_is_an_upsert() {
    let mut ints: Column<u32> = Column::new(0);
    let mut floats: Column<f32> = Column::new(1);
    let mut key_index = KeyIndex::new();
    let shape = int_float_shape();

    shape.write_columns(&mut ints, &mut floats);
    let (p1, p2) = shape.insert(&mut key_index, &mut ints, &mut floats, 1, (5, 1.0));
    assert!(p1.is_none() && p2.is_none());
    let (p1, p2) = shape.insert(&mut key_index, &mut ints, &mut floats, 1, (6, 2.0));
    let evicted = p1.expect("second insert must evict the first cell");
    assert_eq!(evicted.into_inner(), 5);
    assert_eq!(p2.expect("second insert must evict").into_inner(), 1.0);
    shape.get_row(&mut ints, &mut floats, 1).unwrap();
    assert_eq!(*ints.read_value(1), 6);
    shape.release_row(&mut ints, &mut floats, 1);
    shape.release_write_columns(&mut ints, &mut floats);
}

#[test]
fn remove_then_get_row_fails_and_key_left_index() {
    let mut ints: Column<u32> = Column::new(0);
    let mut floats: Column<f32> = Column::new(1);
    let mut key_index = KeyIndex::new();
    let shape = int_float_shape();

    shape.write_columns(&mut ints, &mut floats);
    shape.insert(&mut key_index, &mut ints, &mut floats, 3, (30, 3.0));
    let (p1, p2) = shape.remove(&mut key_index, &mut ints, &mut floats, 3).unwrap();
    assert_eq!(p1.unwrap().into_inner(), 30);
    assert_eq!(p2.unwrap().into_inner(), 3.0);
    assert_eq!(shape.get_row(&mut ints, &mut floats, 3), Err(TableError::KeyNotFound));
    assert!(!shape.keys(&key_index).unwrap().contains(&3));
    shape.release_write_columns(&mut ints, &mut floats);
}

#[test]
fn remove_of_unregistered_key_fails_with_key_not_found() {
    let mut ints: Column<u32> = Column::new(0);
    let mut floats: Column<f32> = Column::new(1);
    let mut key_index = KeyIndex::new();
    let shape = int_float_shape();

    shape.write_columns(&mut ints, &mut floats);
    shape.insert(&mut key_index, &mut ints, &mut floats, 1, (1, 1.0));
    assert!(matches!(
        shape.remove(&mut key_index, &mut ints, &mut floats, 9),
        Err(TableError::KeyNotFound)
    ));
    shape.release_write_columns(&mut ints, &mut floats);
}

#[test]
fn remove_under_unregistered_shape_fails_with_unknown_column_set() {
    let mut ints: Column<u32> = Column::new(0);
    let mut floats: Column<f32> = Column::new(1);
    let mut key_index = KeyIndex::new();
    let shape = int_float_shape();

    shape.write_columns(&mut ints, &mut floats);
    assert!(matches!(
        shape.remove(&mut key_index, &mut ints, &mut floats, 0),
        Err(TableError::UnknownColumnSet)
    ));
    shape.release_write_columns(&mut ints, &mut floats);
}

#[test]
fn extend_matches_sequential_inserts() {
    let batch: Vec<(u64, (u32, f32))> = vec![(0, (1, 1.0)), (1, (2, 2.0)), (2, (3, 3.0))];

    let mut a_ints: Column<u32> = Column::new(0);
    let mut a_floats: Column<f32> = Column::new(1);
    let mut a_index = KeyIndex::new();
    let shape = int_float_shape();
    shape.write_columns(&mut a_ints, &mut a_floats);
    shape.extend(&mut a_index, &mut a_ints, &mut a_floats, batch.clone());

    let mut b_ints: Column<u32> = Column::new(0);
    let mut b_floats: Column<f32> = Column::new(1);
    let mut b_index = KeyIndex::new();
    shape.write_columns(&mut b_ints, &mut b_floats);
    for (key, values) in batch {
        shape.insert(&mut b_index, &mut b_ints, &mut b_floats, key, values);
    }

    let mut a_keys = shape.keys(&a_index).unwrap();
    let mut b_keys = shape.keys(&b_index).unwrap();
    a_keys.sort();
    b_keys.sort();
    assert_eq!(a_keys, b_keys);
    for &key in &a_keys {
        shape.get_row(&mut a_ints, &mut a_floats, key).unwrap();
        shape.get_row(&mut b_ints, &mut b_floats, key).unwrap();
        assert_eq!(a_ints.read_value(key), b_ints.read_value(key));
        assert_eq!(a_floats.read_value(key), b_floats.read_value(key));
        shape.release_row(&mut a_ints, &mut a_floats, key);
        shape.release_row(&mut b_ints, &mut b_floats, key);
    }
    shape.release_write_columns(&mut a_ints, &mut a_floats);
    shape.release_write_columns(&mut b_ints, &mut b_floats);
}

#[test]
fn scenario_int_float_table() {
    let mut ints: Column<u32> = Column::new(0);
    let mut floats: Column<f32> = Column::new(1);
    let mut key_index = KeyIndex::new();
    let shape = int_float_shape();

    shape.write_columns(&mut ints, &mut floats);
    let mut batch: Vec<(u64, (u32, f32))> = Vec::new();
    for key in 0..6u64 {
        let value = 10 * (key as u32 + 1);
        batch.push((key, (value, value as f32)));
    }
    shape.extend(&mut key_index, &mut ints, &mut floats, batch);
    shape.remove(&mut key_index, &mut ints, &mut floats, 1).unwrap();
    shape.remove(&mut key_index, &mut ints, &mut floats, 3).unwrap();
    shape.remove(&mut key_index, &mut ints, &mut floats, 5).unwrap();

    let mut cached = shape.keys(&key_index).unwrap();
    cached.sort();
    assert_eq!(cached, vec![0, 2, 4]);

    assert_eq!(shape.get_row(&mut ints, &mut floats, 0), Ok(()));
    assert_eq!(*ints.read_value(0), 10);
    assert_eq!(*floats.read_value(0), 10.0);
    shape.release_row(&mut ints, &mut floats, 0);

    assert_eq!(shape.get_row(&mut ints, &mut floats, 1), Err(TableError::KeyNotFound));
    shape.release_write_columns(&mut ints, &mut floats);
}

#[test]
fn keys_snapshot_is_not_a_live_view() {
    let mut ints: Column<u32> = Column::new(0);
    let mut floats: Column<f32> = Column::new(1);
    let mut key_index = KeyIndex::new();
    let shape = int_float_shape();

    shape.write_columns(&mut ints, &mut floats);
    shape.insert(&mut key_index, &mut ints, &mut floats, 0, (1, 1.0));
    let snapshot = shape.keys(&key_index).unwrap();
    shape.insert(&mut key_index, &mut ints, &mut floats, 1, (2, 2.0));
    assert_eq!(snapshot, vec![0]);
    assert_eq!(key_index.keys(shape.key_cache_id()).unwrap().len(), 2);
    shape.release_write_columns(&mut ints, &mut floats);
}
