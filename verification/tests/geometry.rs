use a1::{Address, RangeOrCell};

#[test]
fn column_contains_its_cells() {
    let col_a = a1::new("A:A").unwrap();
    let first = a1::new("A1").unwrap();
    assert!(col_a.contains(&first));
    assert!(!first.contains(&col_a));
}

#[test]
fn row_range_contains_cells_between() {
    let top5 = a1::new("1:5").unwrap();
    let b2 = a1::new("B2").unwrap();
    assert!(top5.contains(&b2));
    assert!(!top5.contains(&a1::new("B6").unwrap()));
}

#[test]
fn rectangle_contains_inner_cells_and_rectangles() {
    let rect = a1::new("C3:J20").unwrap();
    assert!(rect.contains(&a1::new("D5").unwrap()));
    assert!(rect.contains(&a1::new("D5:E6").unwrap()));
    assert!(!rect.contains(&a1::new("B3").unwrap()));
    assert!(!rect.contains(&a1::new("D:D").unwrap()));
}

#[test]
fn union_containment_is_asymmetric() {
    let union = a1::new("A1:B2,D4:E5").unwrap();
    assert!(union.contains(&a1::new("A1").unwrap()));
    assert!(union.contains(&a1::new("D4:D5").unwrap()));
    assert!(union.contains(&a1::new("A1,E5").unwrap()));
    assert!(!union.contains(&a1::new("A1:E5").unwrap()));
    let wide = a1::new("A1:Z30").unwrap();
    assert!(wide.contains(&union));
}

#[test]
fn containment_is_reflexive_on_samples() {
    for text in ["A1", "B2:C9", "A:D", "3:7", "A1:B2,D4:E5"] {
        let v = a1::new(text).unwrap();
        assert!(v.contains(&v));
    }
}

#[test]
fn containment_is_transitive_on_samples() {
    let a = a1::new("A1:Z50").unwrap();
    let b = a1::new("C3:J20").unwrap();
    let c = a1::new("D5:E6").unwrap();
    assert!(a.contains(&b));
    assert!(b.contains(&c));
    assert!(a.contains(&c));
}

#[test]
fn shift_chain_moves_a_cell() {
    assert_eq!(
        a1::cell(0, 0)
            .shift_right(3)
            .shift_down(2)
            .shift_left(1)
            .to_a1_string(),
        "C3"
    );
}

#[test]
fn shift_saturates_at_the_origin() {
    assert_eq!(a1::cell(1, 1).shift_left(5).to_a1_string(), "A2");
    assert_eq!(a1::cell(1, 1).shift_up(5).to_a1_string(), "B1");
}

#[test]
fn shift_left_then_right_restores() {
    let v = a1::range((4, 2), (9, 7));
    let back = v.shift_left(3).shift_right(3);
    assert_eq!(back, a1::range((4, 2), (9, 7)));
    let w = a1::row_range(2, 5);
    assert_eq!(w.shift_up(2).shift_down(2), a1::row_range(2, 5));
}

#[test]
fn shift_keeps_shape_and_sheet() {
    let v = a1::new("Foo!A:B").unwrap();
    let moved = v.shift_right(2);
    assert_eq!(moved.to_a1_string(), "Foo!C:D");
}

#[test]
fn iter_cell_yields_itself() {
    let items: Vec<String> = a1::cell(0, 0).iter().iter().map(|r| r.to_a1_string()).collect();
    assert_eq!(items, vec!["A1"]);
}

#[test]
fn iter_column_range_goes_column_wise() {
    let items: Vec<String> = a1::new("D:G")
        .unwrap()
        .iter()
        .iter()
        .map(|r| r.to_a1_string())
        .collect();
    assert_eq!(items, vec!["D:D", "E:E", "F:F", "G:G"]);
}

#[test]
fn iter_row_range_goes_row_wise() {
    let items: Vec<String> = a1::new("3:6")
        .unwrap()
        .iter()
        .iter()
        .map(|r| r.to_a1_string())
        .collect();
    assert_eq!(items, vec!["3:3", "4:4", "5:5", "6:6"]);
}

#[test]
fn iter_grid_goes_row_major() {
    let items: Vec<String> = a1::new("A1:C3")
        .unwrap()
        .iter()
        .iter()
        .map(|r| r.to_a1_string())
        .collect();
    assert_eq!(
        items,
        vec!["A1", "B1", "C1", "A2", "B2", "C2", "A3", "B3", "C3"]
    );
}

#[test]
fn iter_union_concatenates_members() {
    let items: Vec<String> = a1::new("A1:B1,D4")
        .unwrap()
        .iter()
        .iter()
        .map(|r| r.to_a1_string())
        .collect();
    assert_eq!(items, vec!["A1", "B1", "D4"]);
}

#[test]
fn iter_count_matches_the_rectangle() {
    let v = a1::range((0, 0), (2, 2));
    assert_eq!(v.iter().len(), 9);
    let w = a1::range((5, 1), (2, 7));
    assert_eq!(w.iter().len(), 4 * 7);
}

#[test]
fn iter_yields_cells_of_the_rectangle() {
    let v = a1::range((1, 1), (2, 2));
    let items = v.iter();
    assert_eq!(items.len(), 4);
    assert_eq!(
        items[0].reference,
        RangeOrCell::Cell(Address::new(1, 1))
    );
    assert_eq!(
        items[3].reference,
        RangeOrCell::Cell(Address::new(2, 2))
    );
}
