use webgpupy::{threefry2x32_block, threefry2x32_op, threefry_dispatch_size};

fn test_threefry_(key: &[u32; 2], data: &[u32], expected: &[u32]) {
    let result = threefry2x32_op(key, data);
    assert_eq!(result, expected)
}

#[test]
fn test_threefry() {
    test_threefry_(&[0u32, 0], &[0u32, 0], &[0x6b200159u32, 0x99ba4efe]);
    test_threefry_(&[u32::MAX, u32::MAX], &[u32::MAX, u32::MAX], &[0x1cb996fc, 0xbb002be7]);
    test_threefry_(
        &[0x13198a2eu32, 0x03707344],
        &[0x243f6a88u32, 0x85a308d3],
        &[0xc4923a9cu32, 0x483df7a0],
    );
}

#[test]
fn test_threefry_large() {
    const N: usize = 1000000;
    let keys = [0x13198a2e, 0x03707344];
    let mut data = vec![0; 2 * N];
    data[0..N].copy_from_slice(&[0x243f6a88; N]);
    data[N..].copy_from_slice(&[0x85a308d3; N]);

    let mut expected = vec![0; 2 * N];
    expected[0..N].copy_from_slice(&[0xc4923a9c; N]);
    expected[N..].copy_from_slice(&[0x483df7a0; N]);
    test_threefry_(&keys, &data, &expected);
}

#[test]
fn threefry_block_matches_run_of_two() {
    assert_eq!(
        threefry2x32_block((0x13198a2e, 0x03707344), (0x243f6a88, 0x85a308d3)),
        (0xc4923a9c, 0x483df7a0)
    );
    assert_eq!(threefry2x32_op(&[1, 2], &[]), Vec::<u32>::new());
}

#[test]
fn threefry_pairs_the_halves() {
    let key = [0, 1701];
    let words = threefry2x32_op(&key, &[0, 1, 2, 3]);
    assert_eq!(words, vec![56197195u32, 1801093307, 961309823, 1704866707]);
    let first = threefry2x32_block((0, 1701), (0, 2));
    let second = threefry2x32_block((0, 1701), (1, 3));
    assert_eq!(words, vec![first.0, second.0, first.1, second.1]);
}

#[test]
fn threefry_dispatch_sizes() {
    assert_eq!(threefry_dispatch_size(0), 0);
    assert_eq!(threefry_dispatch_size(16), 1);
    assert_eq!(threefry_dispatch_size(4 * 128), 1);
    assert_eq!(threefry_dispatch_size(4 * 129), 2);
    assert_eq!(threefry_dispatch_size(4 * 1000), 8);
}
