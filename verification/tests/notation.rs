use a1::{Address, Column, Error, RangeOrCell, Row, A1};

#[test]
fn parse_single_cell() {
    let v = a1::new("A1").unwrap();
    assert_eq!(
        v,
        A1 {
            sheet_name: None,
            reference: RangeOrCell::Cell(Address {
                column: Column { absolute: false, x: 0 },
                row: Row { absolute: false, y: 0 },
            }),
        }
    );
    assert_eq!(v.to_a1_string(), "A1");
}

#[test]
fn parse_sheet_column_range() {
    let v = a1::new("Foo!A:D").unwrap();
    assert_eq!(v.sheet_name, Some("Foo".to_string()));
    assert_eq!(
        v.reference,
        RangeOrCell::ColumnRange {
            from: Column::new(0),
            to: Column::new(3),
        }
    );
    assert_eq!(v.to_a1_string(), "Foo!A:D");
}

#[test]
fn parse_lower_case() {
    let v = a1::new("bc23").unwrap();
    assert_eq!(v.reference, RangeOrCell::Cell(Address::new(54, 22)));
    assert_eq!(v.to_a1_string(), "BC23");
}

#[test]
fn parse_absolute_markers() {
    let v = a1::new("$A$1").unwrap();
    assert_eq!(
        v.reference,
        RangeOrCell::Cell(Address {
            column: Column { absolute: true, x: 0 },
            row: Row { absolute: true, y: 0 },
        })
    );
    assert_eq!(v.to_a1_string(), "$A$1");

    let mixed = a1::new("A$1").unwrap();
    assert_eq!(
        mixed.reference,
        RangeOrCell::Cell(Address {
            column: Column { absolute: false, x: 0 },
            row: Row { absolute: true, y: 0 },
        })
    );
    assert_eq!(mixed.to_a1_string(), "A$1");
}

#[test]
fn parse_multi_area() {
    let v = a1::new("C5:D9,G9:H16").unwrap();
    assert_eq!(
        v.reference,
        RangeOrCell::NonContiguous(vec![
            RangeOrCell::Range {
                from: Address::new(2, 4),
                to: Address::new(3, 8),
            },
            RangeOrCell::Range {
                from: Address::new(6, 8),
                to: Address::new(7, 15),
            },
        ])
    );
    assert_eq!(v.to_a1_string(), "C5:D9,G9:H16");
}

#[test]
fn parse_row_ranges() {
    let v = a1::new("1:5").unwrap();
    assert_eq!(
        v.reference,
        RangeOrCell::RowRange {
            from: Row::new(0),
            to: Row::new(4),
        }
    );
    assert_eq!(v.to_a1_string(), "1:5");
}

#[test]
fn parse_quoted_sheet() {
    let v = a1::new("'My Sheet'!B2").unwrap();
    assert_eq!(v.sheet_name, Some("My Sheet".to_string()));
    assert_eq!(v.reference, RangeOrCell::Cell(Address::new(1, 1)));
    assert_eq!(v.to_a1_string(), "'My Sheet'!B2");
}

#[test]
fn parse_sheet_splits_on_last_bang() {
    let v = a1::new("'a!b'!C3").unwrap();
    assert_eq!(v.sheet_name, Some("a!b".to_string()));
    assert_eq!(v.reference, RangeOrCell::Cell(Address::new(2, 2)));
}

#[test]
fn format_bijective_base_26() {
    assert_eq!(a1::cell(0, 0).to_a1_string(), "A1");
    assert_eq!(a1::cell(25, 0).to_a1_string(), "Z1");
    assert_eq!(a1::cell(26, 0).to_a1_string(), "AA1");
    assert_eq!(a1::cell(27, 0).to_a1_string(), "AB1");
    assert_eq!(a1::cell(701, 0).to_a1_string(), "ZZ1");
    assert_eq!(a1::cell(702, 0).to_a1_string(), "AAA1");
}

#[test]
fn format_single_lines_keep_colon() {
    assert_eq!(a1::column(5).to_a1_string(), "F:F");
    assert_eq!(a1::row(5).to_a1_string(), "6:6");
    assert_eq!(a1::range((1, 1), (1, 1)).to_a1_string(), "B2:B2");
    assert_eq!(a1::row_range(0, 4).to_a1_string(), "1:5");
    assert_eq!(a1::range((0, 0), (4, 4)).to_a1_string(), "A1:E5");
}

#[test]
fn round_trip_constructed_values() {
    let samples = vec![
        a1::cell(2, 2),
        a1::cell(702, 9_999),
        a1::range((0, 0), (22, 33)),
        a1::range((5, 5), (2, 2)),
        a1::column(0),
        a1::column_range(3, 0),
        a1::row(41),
        a1::row_range(9, 3),
    ];
    for v in samples {
        let text = v.to_a1_string();
        assert_eq!(a1::new(&text).unwrap(), v);
    }
}

#[test]
fn errors_name_the_offender() {
    assert_eq!(a1::new(""), Err(Error::InvalidA1("".to_string())));
    assert_eq!(a1::new("$"), Err(Error::InvalidA1("$".to_string())));
    assert_eq!(a1::new("A0"), Err(Error::InvalidRow("A0".to_string())));
    assert_eq!(a1::new("1x"), Err(Error::InvalidRow("1x".to_string())));
    assert_eq!(a1::new("A1B"), Err(Error::InvalidCell("A1B".to_string())));
    assert_eq!(a1::new("!A1"), Err(Error::InvalidSheetName("".to_string())));
    assert_eq!(a1::new("''!A1"), Err(Error::InvalidSheetName("''".to_string())));
    assert_eq!(
        a1::new("A1:B2:C3"),
        Err(Error::InvalidA1("A1:B2:C3".to_string()))
    );
    assert_eq!(
        a1::new("AAAAAAAAAAAAAAAAAAAA1"),
        Err(Error::InvalidColumn("AAAAAAAAAAAAAAAAAAAA1".to_string()))
    );
    assert_eq!(
        a1::new("99999999999999999999999"),
        Err(Error::InvalidRow("99999999999999999999999".to_string()))
    );
    assert_eq!(a1::new("B2,#,C3"), Err(Error::InvalidA1("#".to_string())));
    assert_eq!(a1::new("B9:").unwrap_err().offending(), "");
    assert_eq!(a1::new("A0").unwrap_err().offending(), "A0");
}

#[test]
fn mixed_corners_are_rejected() {
    assert_eq!(a1::new("A:1"), Err(Error::InvalidA1("A:1".to_string())));
    assert_eq!(a1::new("A1:B"), Err(Error::InvalidA1("A1:B".to_string())));
}

#[test]
fn widening_casts() {
    let col_b = Column::new(1);
    let as_ref: RangeOrCell = col_b.into();
    assert_eq!(
        as_ref,
        RangeOrCell::ColumnRange {
            from: Column::new(1),
            to: Column::new(1),
        }
    );
    let as_a1: A1 = col_b.into();
    assert_eq!(
        as_a1,
        A1 {
            sheet_name: None,
            reference: RangeOrCell::ColumnRange {
                from: Column::new(1),
                to: Column::new(1),
            },
        }
    );
    let addr = Address::new(3, 4);
    assert_eq!(Column::from(addr), Column::new(3));
    assert_eq!(Row::from(addr), Row::new(4));
    assert_eq!(
        A1::from(RangeOrCell::Cell(addr)),
        A1 {
            sheet_name: None,
            reference: RangeOrCell::Cell(Address::new(3, 4)),
        }
    );
}
