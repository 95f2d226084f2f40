use fuzzy_match_flex::{token_set_ratio, token_sort_ratio, Score};

fn value(s: Score) -> f32 {
    s.matched as f32 / s.total as f32
}

#[test]
fn token_sort_ratio_words_with_spaces() {
    let str1 = "Nasa landed a man on the moon";
    let str2 = "A man landed on the moon due to Nasa";
    let sum_length = str1.len() + str2.len();
    let result = (sum_length - 7) as f32 / sum_length as f32;

    assert_eq!(value(token_sort_ratio(&str1, &str2, None)), result);
}

#[test]
fn token_set_ratio_words_with_spaces() {
    let str1 = "The library has my favorite book its called rain & world";
    let str2 = "rain and world";
    let sum_length = 24;
    let result = (sum_length - 4) as f32 / sum_length as f32;

    assert_eq!(value(token_set_ratio(&str1, &str2, None)), result);
}

#[test]
fn token_sort_ratio_ice_cream() {
    let s = token_sort_ratio("My mom bought me ice cream", "The ice cream was bought by my mom", None);
    assert_eq!(s, Score { matched: 52, total: 60 });
    assert_eq!(value(s), 0.8666667);
}

#[test]
fn token_set_ratio_rust_and_c() {
    let s = token_set_ratio(
        "There are a lot of differences between Rust and C++",
        "differences in Rust C++",
        None,
    );
    assert_eq!(s, Score { matched: 36, total: 39 });
    assert_eq!(value(s), 0.9230769);
}

#[test]
fn token_sort_ratio_ignores_word_order() {
    assert_eq!(value(token_sort_ratio("b a c", "c b a", None)), 1.0);
}

#[test]
fn token_set_ratio_ignores_repeated_words() {
    assert_eq!(value(token_set_ratio("a a b", "b a", None)), 1.0);
}

#[test]
fn token_ratios_are_symmetric_on_examples() {
    let pairs = [
        ("Nasa landed a man on the moon", "A man landed on the moon due to Nasa"),
        ("x y", "y z w"),
        ("", "abc def"),
    ];
    for (a, b) in pairs {
        assert_eq!(value(token_sort_ratio(a, b, None)), value(token_sort_ratio(b, a, None)));
        assert_eq!(value(token_set_ratio(a, b, None)), value(token_set_ratio(b, a, None)));
    }
}

#[test]
fn token_ratios_of_identical_strings_are_one() {
    for s in ["", "one two", "&&"] {
        assert_eq!(value(token_sort_ratio(s, s, None)), 1.0);
        assert_eq!(value(token_set_ratio(s, s, None)), 1.0);
    }
}
