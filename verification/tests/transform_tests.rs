use zkcomp::transform::IntoField;

#[test]
fn test_collect_nums() {
    let x_8: Vec<usize> = vec![10, 13];
    let y_8: Vec<usize> = vec![10, 13];
    assert!(x_8.collect_nums() == Some(y_8));

    let x_16: Vec<usize> = vec![100, 120];
    let y_16: Vec<usize> = vec![100, 120];
    assert!(x_16.collect_nums() == Some(y_16));

    let x_32: Vec<usize> = vec![1301, 1190];
    let y_32: Vec<usize> = vec![1301, 1190];
    assert!(x_32.collect_nums() == Some(y_32));
}

#[test]
fn test_collect_bits() {
    let x_8: Vec<usize> = vec![15];
    let y_8: Vec<usize> = vec![1, 1, 1, 1, 0, 0, 0, 0];
    assert_eq!(y_8.len(), 8);
    assert!(x_8.collect_bits("u8") == Some(y_8));

    let x_16: Vec<usize> = vec![1001];
    let y_16: Vec<usize> = vec![1, 0, 0, 1, 0, 1, 1, 1, 1, 1, 0, 0, 0, 0, 0, 0];
    assert_eq!(y_16.len(), 16);
    assert!(x_16.collect_bits("u16") == Some(y_16));

    let x_32: Vec<usize> = vec![30];
    let mut y_32: Vec<usize> = vec![0, 1, 1, 1, 1];
    y_32.extend(std::iter::repeat(0).take(27));
    assert_eq!(y_32.len(), 32);
    assert!(x_32.collect_bits("u32") == Some(y_32));

    let x_64: Vec<usize> = vec![32];
    let mut y_64: Vec<usize> = vec![0, 0, 0, 0, 0, 1];
    y_64.extend(std::iter::repeat(0).take(58));
    assert_eq!(y_64.len(), 64);
    assert!(x_64.collect_bits("u64") == Some(y_64));
}

#[test]
fn empty_inputs_yield_none() {
    let empty: Vec<usize> = vec![];
    assert_eq!(empty.collect_nums(), None);
    let empty2: Vec<usize> = vec![];
    assert_eq!(empty2.collect_bits("u8"), None);
}

#[test]
fn several_numbers_concatenate_in_order() {
    let xs: Vec<usize> = vec![1, 2];
    let bits = xs.collect_bits("u8").unwrap();
    assert_eq!(bits.len(), 16);
    assert_eq!(&bits[0..8], &[1, 0, 0, 0, 0, 0, 0, 0]);
    assert_eq!(&bits[8..16], &[0, 1, 0, 0, 0, 0, 0, 0]);
}

#[test]
fn widths_truncate_high_bits() {
    // 256 at width u8 keeps only the low eight bits.
    let xs: Vec<usize> = vec![257];
    let bits = xs.collect_bits("u8").unwrap();
    assert_eq!(bits, vec![1, 0, 0, 0, 0, 0, 0, 0]);
}

#[test]
fn encoded_numbers_feed_the_comparator() {
    for (x, y) in [(100usize, 200usize), (200, 100), (77, 77), (0, 255), (255, 0)] {
        let xb: Vec<u8> =
            vec![x].collect_bits("u8").unwrap().into_iter().map(|b| b as u8).collect();
        let yb: Vec<u8> =
            vec![y].collect_bits("u8").unwrap().into_iter().map(|b| b as u8).collect();
        let expected = if y > x { 1u8 } else { 0u8 };
        assert_eq!(zkcomp::evaluate::evaluate_comparator(8, &xb, &yb), Some(expected));
    }
}
