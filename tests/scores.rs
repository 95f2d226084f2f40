use fuzzy_match_flex::{levenshtein, partial_ratio, ratio, Score};

fn value(s: Score) -> f32 {
    s.matched as f32 / s.total as f32
}

#[test]
fn levenshtein_no_spaces_sub_count_2() {
    let str1 = "haouse";
    let str2 = "home";
    let sum_length = str1.len() + str2.len();
    // h=h, drop a, o=o, drop u, s->m (two), e=e
    let result = (sum_length - 4) as f32 / sum_length as f32;

    assert_eq!(value(levenshtein(&str1, &str2, 2)), result);
}

#[test]
fn levenshtein_spaces_sub_count_1() {
    let str1 = "this is a string";
    let str2 = "that is a string";
    let sum_length = str1.len() + str2.len();
    let result = (sum_length - 2) as f32 / sum_length as f32;

    assert_eq!(value(levenshtein(&str1, &str2, 1)), result);
}

#[test]
fn levenshtein_exact_fraction() {
    assert_eq!(levenshtein("kitten", "sitting", 2), Score { matched: 8, total: 13 });
    assert_eq!(levenshtein("kitten", "sitting", 1), Score { matched: 10, total: 13 });
    assert_eq!(levenshtein("abc", "xyz", 0), Score { matched: 6, total: 6 });
}

#[test]
fn levenshtein_of_two_empty_strings_is_one() {
    assert_eq!(levenshtein("", "", 2), Score { matched: 1, total: 1 });
    assert_eq!(value(levenshtein("", "abc", 2)), 0.0);
}

#[test]
fn levenshtein_counts_characters_not_bytes() {
    assert_eq!(levenshtein("é", "e", 2), Score { matched: 0, total: 2 });
    assert_eq!(levenshtein("ü", "ü", 2), Score { matched: 2, total: 2 });
}

#[test]
fn ratio_words_with_spaces() {
    let str1 = "This is a string";
    let str2 = "That is a string";
    let sum_length = str1.len() + str2.len();
    let result = (sum_length - 4) as f32 / sum_length as f32;

    assert_eq!(value(ratio(&str1, &str2, None)), result);
}

#[test]
fn ratio_hello_hallo() {
    assert_eq!(value(ratio("Hello", "Hallo", None)), 0.8);
}

#[test]
fn ratio_skips_cleaning_when_told_the_input_is_clean() {
    assert_eq!(ratio("A", "a", None), Score { matched: 2, total: 2 });
    assert_eq!(ratio("A", "a", Some(true)), Score { matched: 2, total: 2 });
    assert_eq!(ratio("A", "a", Some(false)), Score { matched: 0, total: 2 });
}

#[test]
fn ratio_of_symbols_only_strings_is_one() {
    assert_eq!(ratio("&&", "**", None), Score { matched: 1, total: 1 });
}

#[test]
fn partial_ratio_words_with_spaces() {
    let str1 = "My Friend Builds :* Robots";
    let str2 = "Roboto";
    let sum_length = "Robots".len() + str2.len();
    let result = (sum_length - 2) as f32 / sum_length as f32;

    assert_eq!(value(partial_ratio(&str1, &str2, None)), result);
}

#[test]
fn partial_ratio_airplane() {
    assert_eq!(value(partial_ratio("Do we buy the airplane?", "Airplane", None)), 1.0);
}

#[test]
fn identical_strings_score_one() {
    for s in ["", "abc", "Some Words here", "&&"] {
        assert_eq!(value(ratio(s, s, None)), 1.0);
        assert_eq!(value(partial_ratio(s, s, None)), 1.0);
    }
}

#[test]
fn scores_stay_in_the_unit_interval() {
    let pairs = [("", "x"), ("abc", "abd"), ("one two", "three"), ("x y z", "")];
    for (a, b) in pairs {
        for s in [ratio(a, b, None), partial_ratio(a, b, None)] {
            assert!(s.total > 0 && s.matched <= s.total);
        }
    }
}
