use webgpupy::shape::shape_count;
use webgpupy::text::{decimal, shape_to_text};

#[test]
fn decimal_text() {
    assert_eq!(decimal(0), "0");
    assert_eq!(decimal(7), "7");
    assert_eq!(decimal(10), "10");
    assert_eq!(decimal(1234567890), "1234567890");
    assert_eq!(decimal(u64::MAX), u64::MAX.to_string());
}

#[test]
fn shape_text_is_that_of_a_list() {
    assert_eq!(shape_to_text(&[]), "[]");
    assert_eq!(shape_to_text(&[3]), "[3]");
    assert_eq!(shape_to_text(&[10, 0, 4294967295]), "[10, 0, 4294967295]");
    assert_eq!(shape_to_text(&[4, 5, 6]), format!("{:?}", [4, 5, 6]));
}

#[test]
fn shape_counts() {
    assert_eq!(shape_count(&[]), Some(1));
    assert_eq!(shape_count(&[10, 10, 3]), Some(300));
    assert_eq!(shape_count(&[65535, 65537]), Some(u32::MAX));
    assert_eq!(shape_count(&[65536, 65536]), None);
    assert_eq!(shape_count(&[65536, 65536, 0]), Some(0));
    assert_eq!(shape_count(&[0, 65536, 65536]), Some(0));
    assert_eq!(shape_count(&[4294967295, 2]), None);
}
