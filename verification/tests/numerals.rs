use tipt_node::numerals::decimal_text;

#[test]
fn numbers_in_decimal_notation() {
    for n in [0, 1, 9, 10, 11, 99, 100, 101, 1234567890, usize::MAX] {
        assert_eq!(decimal_text(n), n.to_string());
    }
}
