use decon::display::format_number_with_commas;

#[test]
fn test_format_number_with_commas() {
    assert_eq!(format_number_with_commas(0), "0");
    assert_eq!(format_number_with_commas(1), "1");
    assert_eq!(format_number_with_commas(12), "12");
    assert_eq!(format_number_with_commas(123), "123");
    assert_eq!(format_number_with_commas(1234), "1,234");
    assert_eq!(format_number_with_commas(12345), "12,345");
    assert_eq!(format_number_with_commas(123456), "123,456");
    assert_eq!(format_number_with_commas(1234567), "1,234,567");
    assert_eq!(format_number_with_commas(1234567890), "1,234,567,890");
}

#[test]
fn format_number_with_commas_largest_value() {
    assert_eq!(format_number_with_commas(usize::MAX), "18,446,744,073,709,551,615");
}
