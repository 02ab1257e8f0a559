use rust_module::{
    add, caesar_encrypt, count_runs, count_vowels, hash_string, is_palindrome, longest_run,
    longest_word_length, memory_intensive, multiply, reads_same_backwards, reverse_string,
    word_count,
};

#[test]
fn reverse_twice_gives_back_the_text() {
    for t in ["", "a", "hello", "héllo wörld", "ab\u{301}c", "日本語"] {
        assert_eq!(reverse_string(&reverse_string(t)), t);
    }
}

#[test]
fn reverse_works_on_scalar_values() {
    assert_eq!(reverse_string("hello"), "olleh");
    assert_eq!(reverse_string("héllo"), "olléh");
    assert_eq!(reverse_string(""), "");
    assert_eq!(reverse_string("日本語"), "語本日");
}

#[test]
fn palindrome_agrees_with_its_reversal() {
    for t in ["", "hello", "A man a plan a canal Panama", "abca", "No 'x' in Nixon", "12a21"] {
        assert_eq!(is_palindrome(t), is_palindrome(&reverse_string(t)));
    }
}

#[test]
fn palindrome_examples() {
    assert!(is_palindrome("A man a plan a canal Panama"));
    assert!(!is_palindrome("hello"));
}

#[test]
fn palindrome_edge_cases() {
    assert!(is_palindrome(""));
    assert!(is_palindrome("!!! ,,, ???"));
    assert!(is_palindrome("Was it a car or a cat I saw?"));
    assert!(is_palindrome("12321"));
    assert!(!is_palindrome("123"));
    assert!(is_palindrome("été"));
}

#[test]
fn hash_of_empty_text_is_the_seed() {
    assert_eq!(hash_string(""), 5381);
}

#[test]
fn hash_is_deterministic() {
    let a = String::from("determinism");
    let b = String::from("determinism");
    assert_eq!(hash_string(&a), hash_string(&b));
    assert_eq!(hash_string("hello"), hash_string("hello"));
}

#[test]
fn hash_exact_values() {
    assert_eq!(hash_string("a"), 177670);
    assert_eq!(hash_string("hello"), 261238937);
    assert_eq!(hash_string("ab"), 5863208);
    assert_eq!(hash_string("ba"), 5863240);
}

#[test]
fn hash_reads_utf8_bytes() {
    assert_eq!(hash_string("é"), 5866513);
}

#[test]
fn word_examples() {
    assert_eq!(word_count("  a  b c  "), 3);
    assert_eq!(longest_word_length("a bb ccc"), 3);
    assert_eq!(longest_word_length(""), 0);
}

#[test]
fn word_edge_cases() {
    assert_eq!(word_count(""), 0);
    assert_eq!(word_count("   \t\n "), 0);
    assert_eq!(word_count("one"), 1);
    assert_eq!(word_count("a\tb\nc\r\nd"), 4);
    assert_eq!(word_count("a\u{3000}b"), 2);
    assert_eq!(longest_word_length("   "), 0);
    assert_eq!(longest_word_length("ccc bb a"), 3);
    assert_eq!(longest_word_length("  hello\tworld!  "), 6);
}

#[test]
fn longest_word_counts_characters() {
    assert_eq!(longest_word_length("héllo wörld!"), 6);
    assert_eq!(longest_word_length("日本語 ab"), 3);
}

#[test]
fn caesar_round_trip_with_complementary_shift() {
    let t = "HelloWorldXyzABC";
    for shift in 0..=255u8 {
        let back = 26 - (shift % 26);
        assert_eq!(caesar_encrypt(&caesar_encrypt(t, shift), back), t);
    }
}

#[test]
fn caesar_leaves_other_characters() {
    for shift in [0u8, 1, 13, 25, 26, 200, 255] {
        assert_eq!(caesar_encrypt("123 !?-é日", shift), "123 !?-é日");
    }
    assert_eq!(caesar_encrypt("a-b c!", 1), "b-c d!");
}

#[test]
fn caesar_examples() {
    assert_eq!(caesar_encrypt("abc", 1), "bcd");
    assert_eq!(caesar_encrypt("xyz", 3), "abc");
}

#[test]
fn caesar_large_shifts() {
    assert_eq!(caesar_encrypt("abc", 26), "abc");
    assert_eq!(caesar_encrypt("abc", 27), "bcd");
    assert_eq!(caesar_encrypt("az", 255), "vu");
    assert_eq!(caesar_encrypt("AZ", 255), "VU");
    assert_eq!(caesar_encrypt("Hello", 13), "Uryyb");
}

#[test]
fn add_wraps_on_overflow() {
    assert_eq!(add(2147483647, 1), i32::MIN);
    assert_eq!(add(i32::MIN, -1), i32::MAX);
    assert_eq!(add(2, 3), 5);
    assert_eq!(add(-7, 3), -4);
}

#[test]
fn multiply_wraps_on_overflow() {
    assert_eq!(multiply(6, 7), 42);
    assert_eq!(multiply(-3, 7), -21);
    assert_eq!(multiply(65536, 65536), 0);
    assert_eq!(multiply(i32::MAX, 2), -2);
}

#[test]
fn memory_intensive_examples() {
    assert_eq!(memory_intensive(5), 10);
    assert_eq!(memory_intensive(0), 0);
    assert_eq!(memory_intensive(1), 0);
}

#[test]
fn memory_intensive_wraps() {
    assert_eq!(memory_intensive(65536), 2147450880);
    assert_eq!(memory_intensive(65537), -2147450880);
    assert_eq!(memory_intensive(100000), 704982704);
}

#[test]
fn vowel_examples() {
    assert_eq!(count_vowels("AEIOUaeiou"), 10);
    assert_eq!(count_vowels("xyz"), 0);
}

#[test]
fn vowel_edge_cases() {
    assert_eq!(count_vowels(""), 0);
    assert_eq!(count_vowels("Hello World"), 3);
    assert_eq!(count_vowels("éàü"), 0);
    assert_eq!(count_vowels("yY"), 0);
}

#[test]
fn palindrome_folds_non_ascii_capitals() {
    assert!(is_palindrome("Éé"));
    assert!(is_palindrome("ÀbcBà"));
    assert!(is_palindrome("Ésé"));
    assert!(is_palindrome("Ωxω"));
    assert!(!is_palindrome("Éa"));
}

#[test]
fn reads_same_backwards_compares_characters() {
    assert!(reads_same_backwards(""));
    assert!(reads_same_backwards("aba"));
    assert!(reads_same_backwards("éxé"));
    assert!(!reads_same_backwards("ab"));
    assert!(!reads_same_backwards("Aa"));
}

#[test]
fn runs_of_non_gaps() {
    assert_eq!(count_runs(&vec![]), 0);
    assert_eq!(count_runs(&vec![true, true]), 0);
    assert_eq!(count_runs(&vec![false, false, true, false]), 2);
    assert_eq!(count_runs(&vec![true, false, true, false, false, true]), 2);
    assert_eq!(longest_run(&vec![]), 0);
    assert_eq!(longest_run(&vec![true]), 0);
    assert_eq!(longest_run(&vec![false, false, true, false]), 2);
    assert_eq!(longest_run(&vec![false, true, false, false, false]), 3);
}
