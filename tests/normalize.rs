use fuzzy_match_flex::clean_string;

#[test]
fn clean_string_trims_string_and_deletes_non_alphanumerics() {
    let str = "  duck && cats";
    assert_eq!(clean_string(&str), "duck cats");
}

#[test]
fn clean_string_deletes_repeaded_spaces_and_non_alphanumerics() {
    let str = "this1       is 4 u   :*   ";
    assert_eq!(clean_string(&str), "this1 is 4 u");
}

#[test]
fn clean_string_turns_letters_into_lower_case() {
    let str = "THERE IS NO LOWERCASE LETTER IN THIS SENTENCE HAHAHA";
    assert_eq!(clean_string(&str), "there is no lowercase letter in this sentence hahaha");
}

#[test]
fn clean_string_turns_letters_into_lower_case_delets_non_alphanumerics_and_trims() {
    let str = "  SUper Mega    H4Rd s**************tR1N$$$G";
    assert_eq!(clean_string(&str), "super mega h4rd str1ng");
}

#[test]
fn clean_string_example_with_symbols_inside_a_word() {
    assert_eq!(clean_string("   It IS   imp^^^^0rtant"), "it is imp0rtant");
}

#[test]
fn clean_string_of_empty_and_symbol_only_input_is_empty() {
    assert_eq!(clean_string(""), "");
    assert_eq!(clean_string("  &&* $$ "), "");
}

#[test]
fn clean_string_collapses_tabs_and_newlines() {
    assert_eq!(clean_string("\ta\n\n b\u{3000}c "), "a b c");
}

#[test]
fn clean_string_is_idempotent_on_examples() {
    for s in ["   It IS   imp^^^^0rtant", "  duck && cats", "", "X\ty"] {
        let once = clean_string(s);
        assert_eq!(clean_string(&once), once);
    }
}
