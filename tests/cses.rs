use dns_forwarder::cses::{
    array_description, book_shop, digit_queries, coin_combinations_1, dice_combinations, increasing_array, minimizing_coins,
    missing_number, number_spiral, removing_digits, repetitions, string_reorder,
};

#[test]
fn increasing_array_test_example() {
    assert_eq!(5, increasing_array::do_solve(&[3, 2, 5, 1, 7]));
}

#[test]
fn increasing_array_single_value() {
    assert_eq!(0, increasing_array::do_solve(&[42]));
}

#[test]
fn missing_number_test_example() {
    assert_eq!(4, missing_number::do_solve(5, &[2, 3, 1, 5]))
}

#[test]
fn sum_of_first_numbers() {
    assert_eq!(missing_number::sum_u64(10), 55);
    assert_eq!(missing_number::sum_u64(0), 0);
}

#[test]
fn test_examples() {
    // From problem statement
    assert_eq!(number_spiral::do_solve(2, 3), 8);
    assert_eq!(number_spiral::do_solve(1, 1), 1);
    assert_eq!(number_spiral::do_solve(4, 2), 15);
}

#[test]
fn test_under_6() {
    // Example: n=3 should have 4 ways: [1,1,1], [1,2], [2,1], [3]
    assert_eq!(dice_combinations::count_ways(3), 4);
    assert_eq!(dice_combinations::count_ways(6), 32);
}

#[test]
fn dice_counts_past_the_window() {
    assert_eq!(dice_combinations::count_ways(0), 0);
    assert_eq!(dice_combinations::count_ways(7), 63);
    assert_eq!(dice_combinations::count_ways(8), 125);
    assert_eq!(dice_combinations::count_ways(50), 660641036);
}

#[test]
fn book_shop_test_example() {
    assert_eq!(book_shop::max_pages(10, &[4, 8, 5, 3], &[5, 12, 8, 1]), 13);
}

#[test]
fn book_shop_nothing_affordable() {
    assert_eq!(book_shop::max_pages(2, &[4, 8], &[5, 12]), 0);
    assert_eq!(book_shop::max_pages(0, &[0], &[7]), 7);
}

#[test]
fn minimizing_coins_test_example() {
    assert_eq!(minimizing_coins::min_coins(11, &[1, 5, 7]), 3);
}

#[test]
fn minimizing_coins_impossible() {
    assert_eq!(minimizing_coins::min_coins(3, &[2]), -1);
    assert_eq!(minimizing_coins::min_coins(0, &[2]), 0);
}

#[test]
fn test_stub() {
    assert_eq!(8, coin_combinations_1::do_solve(9, &[2, 3, 5]));
}

#[test]
fn coin_combinations_ordered() {
    assert_eq!(coin_combinations_1::do_solve(3, &[1, 2]), 3);
    assert_eq!(coin_combinations_1::do_solve(0, &[1]), 1);
}

#[test]
fn repetitions_test_example() {
    assert_eq!(3, repetitions::do_solve("ATTCGGGA"));
}

#[test]
fn repetitions_edges() {
    assert_eq!(0, repetitions::do_solve(""));
    assert_eq!(1, repetitions::do_solve("A"));
    assert_eq!(4, repetitions::do_solve("CCAAAA"));
}

#[test]
fn array_description_test_example() {
    assert_eq!(3, array_description::do_solve(5, &[2, 0, 2]));
}

#[test]
fn array_description_free_positions() {
    assert_eq!(3, array_description::do_solve(3, &[0]));
    assert_eq!(7, array_description::do_solve(3, &[0, 0]));
    assert_eq!(0, array_description::do_solve(5, &[1, 3]));
}

#[test]
fn removing_digits_test_example() {
    // Example: n=27 should take 5 steps: 27->20->18->10->9->0
    assert_eq!(removing_digits::min_steps(27), 5);
}

#[test]
fn removing_digits_small() {
    assert_eq!(removing_digits::min_steps(0), 0);
    assert_eq!(removing_digits::min_steps(9), 1);
    assert_eq!(removing_digits::min_steps(10), 2);
}

#[test]
fn digits_come_most_significant_first() {
    let mut it = removing_digits::DigiIterator::from(305);
    assert_eq!(it.next(), Some(3));
    assert_eq!(it.next(), Some(0));
    assert_eq!(it.next(), Some(5));
    assert_eq!(it.next(), None);
    let mut zero = removing_digits::DigiIterator::from(0);
    assert_eq!(zero.next(), Some(0));
    assert_eq!(zero.next(), None);
}

#[test]
fn test_optimal_simple() {
    let test_cases = vec![
        (1, 1),
        (9, 9),
        (10, 1), // 10
        (11, 0), // 10
        (12, 1), // 11
        (13, 1), // 11
        (14, 1), // 12
        (15, 2), // 12
    ];

    for (input, expected) in test_cases {
        let result = digit_queries::do_solve(input);
        assert_eq!(result, expected, "Failed for input: {}", input);
    }
}

#[test]
fn test_optimal_with_large_values() {
    let test_cases = vec![
        (189, 9),  // Last digit of 99
        (190, 1),  // First digit of 100
        (191, 0),  // Second digit of 100
        (192, 0),  // Third digit of 100
        (1000, 3), // Somewhere in 3-digit range
    ];

    for (input, expected) in test_cases {
        let result = digit_queries::do_solve(input);
        assert_eq!(result, expected, "Failed for input: {}", input);
    }
}

#[test]
fn digit_queries_far_position() {
    // Position 10^18 lies among the 17-digit numbers.
    assert!(digit_queries::do_solve(1_000_000_000_000_000_000) < 10);
    assert_eq!(digit_queries::extract_digit(4567, 4, 0), 4);
    assert_eq!(digit_queries::extract_digit(4567, 4, 3), 7);
}

#[test]
fn string_reorder_test_example() {
    assert_eq!(string_reorder::do_solve("HATTIVATTI"), Some("AHATITITVT".to_string()));
}

#[test]
fn test_impossible() {
    assert_eq!(string_reorder::do_solve("AAA"), None);
}

#[test]
fn string_reorder_edges() {
    assert_eq!(string_reorder::do_solve(""), Some(String::new()));
    assert_eq!(string_reorder::do_solve("AAB"), Some("ABA".to_string()));
    assert_eq!(string_reorder::do_solve("BA"), Some("AB".to_string()));
}
