use database_api::column::Column;
use database_api::from_row::FromRow;
use database_api::keys::KeyIndex;
use database_api::next_key::NextKeyIterator;
use database_api::row::Row;
use database_api::row::RowField;

#[derive(Debug)]
struct IntFloatRow {
    int: u32,
    float: f32,
}

impl FromRow<(u32, f32)> for IntFloatRow {
    fn from_row(row: &mut (u32, f32)) -> Self {
        IntFloatRow { int: row.0, float: row.1 }
    }
}

#[derive(Debug)]
struct CharStrRow {
    char: char,
    str: String,
}

impl FromRow<(char, String)> for CharStrRow {
    fn from_row(row: &mut (char, String)) -> Self {
        CharStrRow { char: row.0, str: row.1.clone() }
    }
}

#[test]
fn test_database_api() {
    // Create table: four columns in canonical order, one generator, one key index.
    let mut ints: Column<u32> = Column::new(0);
    let mut floats: Column<f32> = Column::new(1);
    let mut chars: Column<char> = Column::new(2);
    let mut strs: Column<String> = Column::new(3);
    let mut key_index = KeyIndex::new();
    let mut generator = NextKeyIterator::new(0);

    let int_float_shape = Row {
        id: 0,
        first: RowField { column: 0, writable: false },
        second: RowField { column: 1, writable: true },
    };
    let char_str_shape = Row {
        id: 1,
        first: RowField { column: 2, writable: false },
        second: RowField { column: 3, writable: true },
    };

    // Take a mutable view over int / float columns
    int_float_shape.write_columns(&mut ints, &mut floats);

    // Insert values
    let mut batch: Vec<(u64, (u32, f32))> = Vec::new();
    for &(i, f) in [(10, 10.0), (20, 20.0), (30, 30.0), (40, 40.0), (50, 50.0), (60, 60.0)].iter()
    {
        let key = generator.next().unwrap();
        batch.push((key, (i, f)));
    }
    int_float_shape.extend(&mut key_index, &mut ints, &mut floats, batch);

    // Remove values
    int_float_shape.remove(&mut key_index, &mut ints, &mut floats, 1).unwrap();
    int_float_shape.remove(&mut key_index, &mut ints, &mut floats, 3).unwrap();
    int_float_shape.remove(&mut key_index, &mut ints, &mut floats, 5).unwrap();

    int_float_shape.release_write_columns(&mut ints, &mut floats);

    // Take a mutable view over char / str columns
    char_str_shape.write_columns(&mut chars, &mut strs);

    // Insert values
    let mut batch: Vec<(u64, (char, String))> = Vec::new();
    for (c, s) in [('a', "Foo"), ('b', "Bar"), ('c', "Baz"), ('d', "Decafisbad")] {
        let key = generator.next().unwrap();
        batch.push((key, (c, s.into())));
    }
    char_str_shape.extend(&mut key_index, &mut chars, &mut strs, batch);

    char_str_shape.release_write_columns(&mut chars, &mut strs);

    // Iterate over int / float columns and print
    int_float_shape.read_columns(&mut ints, &mut floats);
    for key in int_float_shape.keys(&key_index).unwrap() {
        int_float_shape.get_row(&mut ints, &mut floats, key).unwrap();
        let mut row = (*ints.read_value(key), *floats.read_value(key));
        let int_float_row = IntFloatRow::from_row(&mut row);
        println!("Key {}: {:#?}", key, int_float_row);
        int_float_shape.release_row(&mut ints, &mut floats, key);
    }
    int_float_shape.release_read_columns(&mut ints, &mut floats);

    // Iterate over char / str columns and print
    char_str_shape.read_columns(&mut chars, &mut strs);
    for key in char_str_shape.keys(&key_index).unwrap() {
        char_str_shape.get_row(&mut chars, &mut strs, key).unwrap();
        let mut row = (*chars.read_value(key), strs.read_value(key).clone());
        let char_str_row = CharStrRow::from_row(&mut row);
        println!("Key {}: {:#?}", key, char_str_row);
        char_str_shape.release_row(&mut chars, &mut strs, key);
    }
    char_str_shape.release_read_columns(&mut chars, &mut strs);
}
