use langton::field::{Color, Field, FieldError};

#[test]
fn new_rejects_non_positive_size() {
    assert!(matches!(Field::new(0), Err(FieldError::InvalidSize)));
    assert!(matches!(Field::new(-5), Err(FieldError::InvalidSize)));
}

#[test]
fn buffer_length_is_ceiling_of_cells_over_eight() {
    for (size, len) in [(1, 1), (2, 1), (3, 2), (4, 2), (8, 8), (9, 11), (1024, 131072)] {
        let f = Field::new(size).unwrap();
        assert_eq!(f.size, size);
        assert_eq!(f.data.len(), len);
        assert!(f.data.iter().all(|b| *b == 0));
    }
}

#[test]
fn new_grid_is_all_white() {
    let f = Field::new(5).unwrap();
    for i in 0..5 {
        for j in 0..5 {
            assert_eq!(f.get(i, j), Ok(Color::White));
        }
    }
}

#[test]
fn set_then_get_returns_the_color() {
    let mut f = Field::new(7).unwrap();
    assert_eq!(f.set(3, 4, Color::Black), Ok(()));
    assert_eq!(f.get(3, 4), Ok(Color::Black));
    assert_eq!(f.set(3, 4, Color::White), Ok(()));
    assert_eq!(f.get(3, 4), Ok(Color::White));
}

#[test]
fn set_leaves_other_cells_unchanged() {
    let mut f = Field::new(6).unwrap();
    f.set(0, 0, Color::Black).unwrap();
    f.set(5, 5, Color::Black).unwrap();
    f.set(2, 3, Color::Black).unwrap();
    for i in 0..6 {
        for j in 0..6 {
            let expected = if (i, j) == (0, 0) || (i, j) == (5, 5) || (i, j) == (2, 3) {
                Color::Black
            } else {
                Color::White
            };
            assert_eq!(f.get(i, j), Ok(expected));
        }
    }
}

#[test]
fn bit_layout_is_row_major_least_significant_first() {
    let mut f = Field::new(4).unwrap();
    f.set(0, 0, Color::Black).unwrap();
    assert_eq!(f.data, vec![0x01, 0x00]);
    f.set(1, 3, Color::Black).unwrap();
    assert_eq!(f.data, vec![0x81, 0x00]);
    f.set(2, 1, Color::Black).unwrap();
    assert_eq!(f.data, vec![0x81, 0x02]);
    f.set(0, 0, Color::White).unwrap();
    assert_eq!(f.data, vec![0x80, 0x02]);
}

#[test]
fn out_of_range_access_is_refused() {
    let mut f = Field::new(3).unwrap();
    assert_eq!(f.get(3, 0), Err(FieldError::OutOfRange));
    assert_eq!(f.get(0, 3), Err(FieldError::OutOfRange));
    assert_eq!(f.get(-1, 0), Err(FieldError::OutOfRange));
    assert_eq!(f.get(0, -1), Err(FieldError::OutOfRange));
    assert_eq!(f.set(3, 3, Color::Black), Err(FieldError::OutOfRange));
    assert_eq!(f.set(-1, 2, Color::Black), Err(FieldError::OutOfRange));
    assert_eq!(f.data, vec![0, 0]);
}
