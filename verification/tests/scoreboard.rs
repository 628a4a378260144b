use scoreboard::{Builder, Filter, NiceTime, Score, ScoreBoard, SortColumn};

fn nice(bits: u64) -> String {
    let time = NiceTime::new(bits);
    let mantissa = f64::from_bits(bits) / f64::from_bits(time.unit().scale());
    time.render(&format!("{:.3}", mantissa))
}

fn three_scores() -> Vec<Score> {
    vec![
        Score::new("foo", "echo foo", 1.0f64.to_bits(), "hash".to_string(), "lang"),
        Score::new("bar", "echo bar", 2.0f64.to_bits(), "hash".to_string(), "lang"),
        Score::new("baz", "echo baz", 3.0f64.to_bits(), "hash".to_string(), "lang"),
    ]
}

#[test]
fn test_scoreboard() {
    let scoreboard = ScoreBoard::new(three_scores());
    let filters = Builder::new()
        .add_filter(Filter::Player(vec!["foo".to_string()]))
        .build();
    let scores = scoreboard.get(Some(&filters));
    assert_eq!(scores.len(), 1);
    assert_eq!(scores[0].name, "foo");
}

#[test]
fn test_scoreboard_display() {
    let scoreboard = ScoreBoard::new(three_scores());
    let filters = Builder::new()
        .add_filter(Filter::Player(vec!["foo".to_string()]))
        .add_filter(Filter::Sort(SortColumn::Time))
        .build();
    let scores = scoreboard.display(Some(&filters), nice);
    assert_eq!(scores, "1. foo ran echo foo (lang) in 1.000ns\n");
}

#[test]
fn test_scoreboard_display_with_real_name() {
    let scoreboard = ScoreBoard::new(three_scores());
    let filters = Builder::new()
        .add_filter(Filter::Player(vec!["foo".to_string()]))
        .build();
    let scores = scoreboard.display_with_real_name(Some(&filters), nice, |_: &String| None);
    assert_eq!(scores, "1. foo ran echo foo (lang) in 1.000ns\n");
}

#[test]
fn display_shows_the_real_name_where_one_is_found() {
    let scoreboard = ScoreBoard::new(three_scores());
    let shown = scoreboard.display_with_real_name(None, nice, |account: &String| {
        if account == "bar" {
            Some("Barbara Roe".to_string())
        } else {
            None
        }
    });
    assert_eq!(
        shown,
        "1. foo ran echo foo (lang) in 1.000ns\n2. Barbara Roe ran echo bar (lang) in 2.000ns\n3. baz ran echo baz (lang) in 3.000ns\n"
    );
}

#[test]
fn display_numbers_past_nine() {
    let mut scores = Vec::new();
    for i in 0..12 {
        scores.push(Score::new("p", "c", (i as f64).to_bits(), "h".to_string(), "l"));
    }
    let shown = ScoreBoard::new(scores).display(None, nice);
    let lines: Vec<&str> = shown.lines().collect();
    assert_eq!(lines.len(), 12);
    assert_eq!(lines[9], "10. p ran c (l) in 9.000ns");
    assert_eq!(lines[11], "12. p ran c (l) in 11.000ns");
}

#[test]
fn get_without_a_pipeline_gives_every_score() {
    let scoreboard = ScoreBoard::new(three_scores());
    let scores = scoreboard.get(None);
    assert_eq!(scores.len(), 3);
    assert_eq!(scores[0].name, "foo");
    assert_eq!(scores[1].name, "bar");
    assert_eq!(scores[2].name, "baz");
    assert_eq!(scores[2].hash, "hash");
}

#[test]
fn filter_leaves_a_board_of_what_passed() {
    let scoreboard = ScoreBoard::new(three_scores());
    let builder = Builder::new().add_filter(Filter::Bottom(2));
    let smaller = scoreboard.filter(builder);
    let scores = smaller.get(None);
    assert_eq!(scores.len(), 2);
    assert_eq!(scores[0].name, "bar");
    assert_eq!(scores[1].name, "baz");
}

#[test]
fn display_of_an_empty_board_is_empty() {
    let scoreboard = ScoreBoard::new(Vec::new());
    assert_eq!(scoreboard.display(None, nice), "");
}
