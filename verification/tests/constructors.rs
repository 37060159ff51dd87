use a1::{Address, Column, RangeOrCell, Row};

#[test]
fn cell() {
    let v = a1::cell(2, 3);

    assert_eq!(v.sheet_name, None);
    assert_eq!(v.reference, RangeOrCell::Cell(Address::new(2, 3)));
}

#[test]
fn new() {
    let v = a1::new("Foo!A1").unwrap();

    assert_eq!(v.sheet_name, Some("Foo".to_string()));
    assert_eq!(v.reference, RangeOrCell::Cell(Address::new(0, 0)));
}

#[test]
fn range() {
    let v = a1::range((0, 0), (22, 33));

    assert_eq!(v.sheet_name, None);
    assert_eq!(
        v.reference,
        RangeOrCell::Range {
            from: Address::new(0, 0),
            to: Address::new(22, 33),
        }
    );
}

#[test]
fn column() {
    let v = a1::column(22);

    assert_eq!(v.sheet_name, None);
    assert_eq!(
        v.reference,
        RangeOrCell::ColumnRange {
            from: Column::new(22),
            to: Column::new(22),
        }
    );
}

#[test]
fn column_range() {
    let v = a1::column_range(1, 420);

    assert_eq!(v.sheet_name, None);
    assert_eq!(
        v.reference,
        RangeOrCell::ColumnRange {
            from: Column::new(1),
            to: Column::new(420),
        }
    );
}

#[test]
fn row() {
    let v = a1::row(11);

    assert_eq!(v.sheet_name, None);
    assert_eq!(
        v.reference,
        RangeOrCell::RowRange {
            from: Row::new(11),
            to: Row::new(11),
        }
    );
}

#[test]
fn row_range() {
    let v = a1::row_range(0, 42);

    assert_eq!(v.sheet_name, None);
    assert_eq!(
        v.reference,
        RangeOrCell::RowRange {
            from: Row::new(0),
            to: Row::new(42),
        }
    );
}
