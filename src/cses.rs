//! Solutions to a few introductory and dynamic-programming puzzles. Each
//! module holds the computation; reading input and printing stay with the
//! caller.
pub mod increasing_array;
pub mod missing_number;
pub mod number_spiral;
pub mod dice_combinations;
pub mod minimizing_coins;
pub mod coin_combinations_1;
pub mod book_shop;
pub mod repetitions;
pub mod array_description;
pub mod removing_digits;
pub mod digit_queries;
pub mod string_reorder;
