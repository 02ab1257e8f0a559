//! Small text and integer utilities: vowel counting, reversal, palindrome
//! tests, DJB2 hashing, word statistics, a Caesar cipher, and wrapping
//! 32-bit arithmetic.
mod arith;
mod chars;
mod cipher;
mod hash;
mod text;

pub use arith::{add, memory_intensive, multiply, triangle, wrap_i32};
pub use chars::{
    alphanumeric, ascii_alphanumeric, ascii_lower, ascii_whitespace, in_range, lowercase_of,
    whitespace,
};
pub use cipher::{ascii_letter, caesar, caesar_encrypt, lemma_caesar_round_trip, shift_char};
pub use hash::{djb2, hash_string, lemma_hash_deterministic};
pub use text::{
    cleaned, count_runs, count_vowels, gaps, is_palindrome, is_vowel, lemma_palindrome_reverse,
    lemma_reverse_involution, longest_run, longest_word_length, max_of, palindrome,
    reads_same_backwards, reverse_string, runs, vowel_count, word_count,
};
