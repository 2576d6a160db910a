use entropy_scan::histogram::{Histogram, SYMBOLS};

/// The order-0 entropy of a block in bits, from the block's histogram.
fn calc_entropy(data: &[u8]) -> f64 {
    let histogram = Histogram::of_block(data);
    let len = histogram.total() as f64;
    let mut es = 0.0_f64;
    for v in histogram.nonzero_counts() {
        let p = v as f64 / len;
        es += p * p.log2();
    }
    es.abs()
}

#[test]
fn calc_entropty_test() {
    // some control values
    assert_eq!(calc_entropy(&[1]), 0.0);
    assert_eq!(calc_entropy(&[1, 0]), 1.0);
    assert!(calc_entropy(&[1, 0, 1]) < 0.92);
    assert!(calc_entropy(&[1, 0, 1]) > 0.91);
}

#[test]
fn histogram_counts_each_byte() {
    let histogram = Histogram::of_block(&[1, 0, 1, 255, 1]);
    assert_eq!(histogram.count(0), 1);
    assert_eq!(histogram.count(1), 3);
    assert_eq!(histogram.count(2), 0);
    assert_eq!(histogram.count(255), 1);
    assert_eq!(histogram.total(), 5);
}

#[test]
fn histogram_of_nothing_is_all_zero() {
    let histogram = Histogram::of_block(&[]);
    assert_eq!(histogram.total(), 0);
    for symbol in 0..=255u8 {
        assert_eq!(histogram.count(symbol), 0);
    }
    assert_eq!(histogram.nonzero_counts(), Vec::<usize>::new());
}

#[test]
fn counts_add_up_to_the_block_length() {
    let block: Vec<u8> = (0..1000u32).map(|i| (i * 7 % 251) as u8).collect();
    let histogram = Histogram::of_block(&block);
    let mut sum = 0usize;
    for symbol in 0..=255u8 {
        sum += histogram.count(symbol);
    }
    assert_eq!(sum, 1000);
    assert_eq!(histogram.total(), 1000);
    assert_eq!(histogram.nonzero_counts().iter().sum::<usize>(), 1000);
}

#[test]
fn nonzero_counts_come_in_symbol_order() {
    let histogram = Histogram::of_block(&[9, 3, 9, 200, 9, 3]);
    assert_eq!(histogram.nonzero_counts(), vec![2, 3, 1]);
}

#[test]
fn nonzero_counts_leave_out_absent_symbols() {
    let histogram = Histogram::of_block(&[0, 255]);
    assert_eq!(histogram.nonzero_counts(), vec![1, 1]);
}

#[test]
fn all_symbols_present_gives_one_count_each() {
    let block: Vec<u8> = (0..=255u8).collect();
    let histogram = Histogram::of_block(&block);
    assert_eq!(histogram.nonzero_counts(), vec![1usize; SYMBOLS]);
}

#[test]
fn repeated_byte_has_a_single_count() {
    let histogram = Histogram::of_block(&[7; 40]);
    assert_eq!(histogram.nonzero_counts(), vec![40]);
    assert_eq!(histogram.count(7), 40);
}

#[test]
fn repeated_byte_has_entropy_zero() {
    for value in [0u8, 1, 65, 255] {
        for len in [1usize, 2, 3, 100] {
            assert_eq!(calc_entropy(&vec![value; len]), 0.0);
        }
    }
}

#[test]
fn two_even_symbols_have_entropy_one() {
    assert_eq!(calc_entropy(&[0, 1]), 1.0);
    assert_eq!(calc_entropy(&[1, 0, 0, 1]), 1.0);
    assert_eq!(calc_entropy(&[200, 200, 200, 3, 3, 3]), 1.0);
}

#[test]
fn all_symbols_even_have_entropy_eight() {
    let block: Vec<u8> = (0..=255u8).collect();
    assert_eq!(calc_entropy(&block), 8.0);
}

#[test]
fn entropy_stays_between_zero_and_eight() {
    let mut state: u32 = 12345;
    for len in [1usize, 2, 5, 17, 256, 1000, 4096] {
        let mut block: Vec<u8> = Vec::new();
        for _ in 0..len {
            state = state.wrapping_mul(1103515245).wrapping_add(12345);
            block.push((state >> 16) as u8);
        }
        let e = calc_entropy(&block);
        assert!(e >= 0.0);
        assert!(e <= 8.0);
    }
}
