use snord::hex::HexCoord;

#[test]
fn test_neighbors_count() {
    let hex = HexCoord::new(0, 0);
    assert_eq!(hex.neighbors().len(), 6);
}

#[test]
fn neighbors_even_row_exact() {
    let n = HexCoord::new(2, 4).neighbors();
    let expected = [
        HexCoord::new(3, 4),
        HexCoord::new(2, 3),
        HexCoord::new(1, 3),
        HexCoord::new(1, 4),
        HexCoord::new(1, 5),
        HexCoord::new(2, 5),
    ];
    assert_eq!(n, expected);
}

#[test]
fn neighbors_odd_row_exact() {
    let n = HexCoord::new(2, 3).neighbors();
    let expected = [
        HexCoord::new(3, 3),
        HexCoord::new(3, 2),
        HexCoord::new(2, 2),
        HexCoord::new(1, 3),
        HexCoord::new(2, 4),
        HexCoord::new(3, 4),
    ];
    assert_eq!(n, expected);
}

#[test]
fn neighbors_negative_odd_row() {
    let n = HexCoord::new(0, -1).neighbors();
    assert_eq!(n[1], HexCoord::new(1, -2));
    assert_eq!(n[4], HexCoord::new(0, 0));
}

#[test]
fn neighbors_distinct_and_symmetric() {
    for q in -3..=3 {
        for r in -3..=3 {
            let a = HexCoord::new(q, r);
            let ns = a.neighbors();
            for i in 0..6 {
                for j in 0..6 {
                    if i != j {
                        assert_ne!(ns[i], ns[j]);
                    }
                }
                assert!(ns[i].neighbors().contains(&a));
            }
        }
    }
}

#[test]
fn distance_values() {
    assert_eq!(HexCoord::new(0, 0).distance(HexCoord::new(0, 0)), 0);
    assert_eq!(HexCoord::new(0, 0).distance(HexCoord::new(3, 0)), 3);
    assert_eq!(HexCoord::new(1, 2).distance(HexCoord::new(-2, 4)), 3);
    assert_eq!(HexCoord::new(0, 0).s(), 0);
    assert_eq!(HexCoord::new(2, 5).s(), -7);
}

#[test]
fn pixel_y_follows_rows() {
    assert_eq!(HexCoord::new(4, 0).pixel_y(250), 250);
    assert_eq!(HexCoord::new(4, 3).pixel_y(250), 160);
    assert_eq!(HexCoord::new(-1, -2).pixel_y(220), 280);
}
