use transit_net::float_table::{FloatMatrix, FloatTable};

#[test]
fn test_float_table() {
    let mut table = FloatTable::new();

    table.insert(0.566f64.to_bits(), 'a');
    table.insert(0.567f64.to_bits(), 'b');
    table.insert(0.568f64.to_bits(), 'c');
    table.insert(0.569f64.to_bits(), 'd');

    assert_eq!(table.get(0.566f64.to_bits()), Some(&'a'));
    assert_eq!(table.get(0.567f64.to_bits()), Some(&'b'));
    assert_eq!(table.get(0.568f64.to_bits()), Some(&'c'));
    assert_eq!(table.get(0.569f64.to_bits()), Some(&'d'));
    assert_eq!(table.get(0.5699f64.to_bits()), None);
}

#[test]
fn test_float_matrix() {
    let mut matrix = FloatMatrix::new(4);

    matrix.insert(0, 0.4f64.to_bits(), 'a');
    matrix.insert(0, 0.41f64.to_bits(), 'b');
    matrix.insert(1, 0.48f64.to_bits(), 'a');

    assert_eq!(matrix.get(0, 0.4f64.to_bits()), Some(&'a'));
    assert_eq!(matrix.get(0, 0.41f64.to_bits()), Some(&'b'));
    assert_eq!(matrix.get(0, 0.42f64.to_bits()), None);
    assert_eq!(matrix.get(1, 0.48f64.to_bits()), Some(&'a'));
    assert_eq!(matrix.get(2, 0.42f64.to_bits()), None);
    assert_eq!(matrix.get(3, 0.42f64.to_bits()), None);
}

#[test]
fn float_table_overwrites_and_keeps_zero_signs_apart() {
    let mut table = FloatTable::new();
    table.insert(0.5f64.to_bits(), 1usize);
    table.insert(0.5f64.to_bits(), 2usize);
    assert_eq!(table.get(0.5f64.to_bits()), Some(&2));
    table.insert(0.0f64.to_bits(), 3usize);
    assert_eq!(table.get((-0.0f64).to_bits()), None);
    let nearly = f64::from_bits(0.5f64.to_bits() + 1);
    assert_eq!(table.get(nearly.to_bits()), None);
}

#[test]
fn float_matrix_has_the_size_asked_for() {
    let matrix: FloatMatrix<u8> = FloatMatrix::new(3);
    assert_eq!(matrix.len(), 3);
    let none: FloatMatrix<u8> = FloatMatrix::new(0);
    assert_eq!(none.len(), 0);
}
