use registrobr_finder::generator::{combination_count, generate_combinations};

#[test]
fn test_generate_combinations_2_digits_numbers_only() {
    let combos = generate_combinations(2, false, true);
    assert_eq!(combos.len(), 100);
    assert!(combos.contains(&"00".to_string()));
    assert!(combos.contains(&"99".to_string()));
    assert!(combos.contains(&"42".to_string()));
}

#[test]
fn test_generate_combinations_2_digits_letters_only() {
    let combos = generate_combinations(2, true, false);
    assert_eq!(combos.len(), 676);
    assert!(combos.contains(&"aa".to_string()));
    assert!(combos.contains(&"zz".to_string()));
    assert!(combos.contains(&"ab".to_string()));
}

#[test]
fn test_generate_combinations_2_digits_alphanumeric() {
    let combos = generate_combinations(2, false, false);
    assert_eq!(combos.len(), 1296);
    assert!(combos.contains(&"aa".to_string()));
    assert!(combos.contains(&"00".to_string()));
    assert!(combos.contains(&"a1".to_string()));
    assert!(combos.contains(&"z9".to_string()));
}

#[test]
fn test_generate_combinations_3_digits_numbers_only() {
    let combos = generate_combinations(3, false, true);
    assert_eq!(combos.len(), 1000);
    assert!(combos.contains(&"000".to_string()));
    assert!(combos.contains(&"999".to_string()));
    assert!(combos.contains(&"123".to_string()));
}

#[test]
fn test_generate_combinations_3_digits_letters_only() {
    let combos = generate_combinations(3, true, false);
    assert_eq!(combos.len(), 17576);
    assert!(combos.contains(&"aaa".to_string()));
    assert!(combos.contains(&"zzz".to_string()));
    assert!(combos.contains(&"abc".to_string()));
}

#[test]
fn test_generate_combinations_3_digits_alphanumeric() {
    let combos = generate_combinations(3, false, false);
    assert_eq!(combos.len(), 46656);
}

#[test]
fn generated_order_is_positional() {
    let combos = generate_combinations(2, false, true);
    for (i, c) in combos.iter().enumerate() {
        assert_eq!(c, &format!("{:02}", i));
    }
    let letters = generate_combinations(2, true, false);
    assert_eq!(letters[0], "aa");
    assert_eq!(letters[1], "ab");
    assert_eq!(letters[26], "ba");
    assert_eq!(letters[675], "zz");
    let both = generate_combinations(2, false, false);
    assert_eq!(both[0], "aa");
    assert_eq!(both[26], "a0");
    assert_eq!(both[36], "ba");
    assert_eq!(both[1295], "99");
}

#[test]
fn generated_strings_are_distinct() {
    for (letters, numbers) in [(false, true), (true, false), (false, false)] {
        for length in [2u8, 3u8] {
            let combos = generate_combinations(length, letters, numbers);
            let mut sorted = combos.clone();
            sorted.sort();
            sorted.dedup();
            assert_eq!(sorted.len(), combos.len());
        }
    }
}

#[test]
fn generation_is_repeatable() {
    let first = generate_combinations(3, false, false);
    let second = generate_combinations(3, false, false);
    assert_eq!(first, second);
}

#[test]
fn numbers_only_wins_over_letters_only() {
    let combos = generate_combinations(1, true, true);
    assert_eq!(combos.len(), 10);
    assert_eq!(combos[0], "0");
    assert_eq!(combos[9], "9");
}

#[test]
fn zero_length_gives_the_empty_string() {
    let combos = generate_combinations(0, false, false);
    assert_eq!(combos, vec![String::new()]);
}

#[test]
fn combination_count_is_the_power() {
    assert_eq!(combination_count(0, false, true), Some(1));
    assert_eq!(combination_count(2, false, true), Some(100));
    assert_eq!(combination_count(3, true, false), Some(17576));
    assert_eq!(combination_count(3, false, false), Some(46656));
    assert_eq!(combination_count(4, true, true), Some(10000));
}

#[test]
fn combination_count_reports_overflow() {
    assert_eq!(combination_count(255, false, false), None);
    assert_eq!(combination_count(64, false, true), None);
    assert_eq!(combination_count(9, false, true), Some(1_000_000_000));
}
