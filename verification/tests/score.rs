use scoreboard::text::{decimal_string, matches_ignoring_case, text_le};
use scoreboard::{Field, Score};

#[test]
fn a_score_holds_what_it_was_made_of() {
    let score = Score::new("ann", "ls -l", 12.5f64.to_bits(), "h4sh".to_string(), "rust");
    assert_eq!(score.name, "ann");
    assert_eq!(score.command, "ls -l");
    assert_eq!(f64::from_bits(score.time_ns), 12.5);
    assert_eq!(score.hash, "h4sh");
    assert_eq!(score.language, "rust");
    assert_eq!(score.text(Field::Name), "ann");
    assert_eq!(score.text(Field::Command), "ls -l");
    assert_eq!(score.text(Field::Language), "rust");
    let copy = score.clone();
    assert_eq!(copy.name, "ann");
    assert_eq!(copy.time_ns, score.time_ns);
    assert_eq!(copy.hash, "h4sh");
}

#[test]
fn a_score_is_shown_in_a_sentence() {
    let score = Score::new("ann", "ls -l", 12.5f64.to_bits(), "h4sh".to_string(), "rust");
    assert_eq!(score.render("12.500ns"), "ann ran ls -l (rust) in 12.500ns");
    assert_eq!(score.render_as("Ann Lee", "1.000s"), "Ann Lee ran ls -l (rust) in 1.000s");
}

#[test]
fn numerals_are_decimal() {
    assert_eq!(decimal_string(0), "0");
    assert_eq!(decimal_string(7), "7");
    assert_eq!(decimal_string(10), "10");
    assert_eq!(decimal_string(1234567890), "1234567890");
    assert_eq!(decimal_string(usize::MAX), usize::MAX.to_string());
}

#[test]
fn texts_are_ordered_as_the_standard_library_orders_them() {
    let words = ["", "a", "A", "ab", "b", "é", "e", "zz", "z", "日本", "\u{10000}", "\u{ffff}"];
    for a in words {
        for b in words {
            assert_eq!(text_le(a, b), a <= b);
        }
    }
}

#[test]
fn case_is_ignored_for_ascii_letters_only() {
    assert!(matches_ignoring_case("TiMe", "time"));
    assert!(matches_ignoring_case("", ""));
    assert!(!matches_ignoring_case("time", "Time"));
    assert!(!matches_ignoring_case("tim", "time"));
    assert!(!matches_ignoring_case("times", "time"));
    assert!(!matches_ignoring_case("\u{212a}", "k"));
    assert!(!matches_ignoring_case("[", "{"));
    assert!(!matches_ignoring_case("@", "`"));
}
