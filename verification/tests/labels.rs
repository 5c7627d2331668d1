use trefoil::labels::vertex_label;

#[test]
fn label_joins_vertex_and_symmetry() {
    assert_eq!(vertex_label(0, 0), "0:0");
    assert_eq!(vertex_label(7, 1), "7:1");
}

#[test]
fn label_uses_all_decimal_digits() {
    assert_eq!(vertex_label(10, 3), "10:3");
    assert_eq!(vertex_label(1234567890, 42), "1234567890:42");
    assert_eq!(vertex_label(usize::MAX, 9), format!("{}:9", usize::MAX));
}
