use scoreboard::{Builder, Error, Filter, Score, SortColumn};
use std::str::FromStr;

fn names(list: &[&str]) -> Vec<String> {
    list.iter().map(|s| s.to_string()).collect()
}

fn score(name: &str, command: &str, time: f64, language: &str) -> Score {
    Score::new(name, command, time.to_bits(), "hash".to_string(), language)
}

fn players(scores: &[Score]) -> Vec<String> {
    scores.iter().map(|s| s.name.clone()).collect()
}

fn five() -> Vec<Score> {
    vec![
        score("a", "x", 5.0, "rust"),
        score("b", "y", 4.0, "c"),
        score("c", "x", 3.0, "rust"),
        score("d", "z", 2.0, "go"),
        score("e", "y", 1.0, "c"),
    ]
}

#[test]
fn two_player_lists_merge_into_one() {
    let builder = Builder::new()
        .add_filter(Filter::Player(names(&["a"])))
        .add_filter(Filter::Player(names(&["b"])));
    let filters = builder.filters();
    assert_eq!(filters.len(), 1);
    match &filters[0] {
        Filter::Player(list) => assert_eq!(list, &names(&["b", "a"])),
        other => panic!("{:?}", other),
    }
}

#[test]
fn a_merged_list_holds_each_name_once() {
    let builder = Builder::new()
        .add_filter(Filter::Sort(SortColumn::Time))
        .add_filter(Filter::Binary(names(&["x", "y", "x"])))
        .add_filter(Filter::Top(1))
        .add_filter(Filter::Binary(names(&["z", "y", "z", "w"])));
    let filters = builder.filters();
    assert_eq!(filters.len(), 3);
    assert!(matches!(filters[0], Filter::Sort(SortColumn::Time)));
    assert!(matches!(filters[1], Filter::Top(1)));
    match &filters[2] {
        Filter::Binary(list) => assert_eq!(list, &names(&["z", "y", "w", "x"])),
        other => panic!("{:?}", other),
    }
}

#[test]
fn a_first_list_is_kept_as_given() {
    let builder = Builder::new().add_filter(Filter::Language(names(&["c", "c"])));
    match &builder.filters()[0] {
        Filter::Language(list) => assert_eq!(list, &names(&["c", "c"])),
        other => panic!("{:?}", other),
    }
}

#[test]
fn language_lists_merge_too() {
    let builder = Builder::new()
        .add_filter(Filter::Language(names(&["c"])))
        .add_filter(Filter::Player(names(&["p"])))
        .add_filter(Filter::Language(names(&["go"])));
    let filters = builder.filters();
    assert_eq!(filters.len(), 2);
    assert!(matches!(&filters[0], Filter::Player(_)));
    match &filters[1] {
        Filter::Language(list) => assert_eq!(list, &names(&["go", "c"])),
        other => panic!("{:?}", other),
    }
}

#[test]
fn the_later_limit_replaces_the_earlier() {
    let builder = Builder::new()
        .add_filter(Filter::Top(5))
        .add_filter(Filter::Bottom(3));
    let filters = builder.filters();
    assert_eq!(filters.len(), 1);
    assert!(matches!(filters[0], Filter::Bottom(3)));
}

#[test]
fn a_flag_added_again_moves_to_the_end() {
    let mut builder = Builder::new();
    builder.append(Filter::UniquePlayers);
    builder.append(Filter::UniqueBinaries);
    builder.append(Filter::UniqueLanguages);
    builder.append(Filter::UniquePlayers);
    let filters = builder.filters();
    assert_eq!(filters.len(), 3);
    assert!(matches!(filters[0], Filter::UniqueBinaries));
    assert!(matches!(filters[1], Filter::UniqueLanguages));
    assert!(matches!(filters[2], Filter::UniquePlayers));
}

#[test]
fn a_sort_replaces_the_sort_by_the_same_column() {
    let builder = Builder::new()
        .add_filter(Filter::Sort(SortColumn::Time))
        .add_filter(Filter::Sort(SortColumn::PlayerName))
        .add_filter(Filter::Sort(SortColumn::Time));
    let filters = builder.filters();
    assert_eq!(filters.len(), 2);
    assert!(matches!(filters[0], Filter::Sort(SortColumn::PlayerName)));
    assert!(matches!(filters[1], Filter::Sort(SortColumn::Time)));
}

#[test]
fn remove_takes_out_what_counts_as_the_same_rule() {
    let builder = Builder::new()
        .add_filter(Filter::Player(names(&["a", "b"])))
        .add_filter(Filter::Top(4))
        .add_filter(Filter::UniqueBinaries);
    let kept = builder.clone().remove_filter(Filter::Player(names(&["a"])));
    assert_eq!(kept.filters().len(), 3);
    let gone = builder.clone().remove_filter(Filter::Player(names(&["a", "b"])));
    assert_eq!(gone.filters().len(), 2);
    let unlimited = builder.clone().remove_filter(Filter::Bottom(9));
    assert_eq!(unlimited.filters().len(), 2);
    assert!(matches!(&unlimited.filters()[0], Filter::Player(_)));
    assert!(matches!(unlimited.filters()[1], Filter::UniqueBinaries));
    assert_eq!(builder.filters().len(), 3);
}

#[test]
fn clear_and_default_stage_nothing() {
    let builder = Builder::new().add_filter(Filter::Top(1)).clear();
    assert!(builder.filters().is_empty());
    assert!(Builder::default().filters().is_empty());
    assert!(Builder::new().build().filters().is_empty());
}

#[test]
fn a_built_pipeline_does_not_follow_the_builder() {
    let mut builder = Builder::new().add_filter(Filter::Top(2));
    let built = builder.clone().build();
    builder.append(Filter::UniquePlayers);
    assert_eq!(built.filters().len(), 1);
    assert_eq!(builder.filters().len(), 2);
}

#[test]
fn filters_compare_by_slot_and_list() {
    assert!(Filter::Top(1) == Filter::Bottom(7));
    assert!(Filter::Bottom(1) == Filter::Bottom(2));
    assert!(Filter::Top(1) == Filter::Top(1));
    assert!(Filter::UniquePlayers == Filter::UniquePlayers);
    assert!(Filter::UniqueLanguages == Filter::UniqueLanguages);
    assert!(Filter::UniqueLanguages != Filter::UniqueBinaries);
    assert!(Filter::UniquePlayers != Filter::UniqueBinaries);
    assert!(Filter::Player(names(&["a"])) == Filter::Player(names(&["a"])));
    assert!(Filter::Player(names(&["a"])) != Filter::Player(names(&["a", "b"])));
    assert!(Filter::Player(names(&["a"])) != Filter::Binary(names(&["a"])));
    assert!(Filter::Language(names(&["c"])) == Filter::Language(names(&["c"])));
    assert!(Filter::Language(names(&["c"])) != Filter::Language(names(&["d"])));
    assert!(Filter::Sort(SortColumn::Time) == Filter::Sort(SortColumn::Time));
    assert!(Filter::Sort(SortColumn::Time) != Filter::Sort(SortColumn::Binary));
    assert!(Filter::Sort(SortColumn::Time) != Filter::Top(1));
}

#[test]
fn no_rules_leave_the_scores_as_they_are() {
    let scores = five();
    let out = Builder::new().build().apply(&scores);
    assert_eq!(players(&out), names(&["a", "b", "c", "d", "e"]));
    assert_eq!(out[1].command, "y");
    assert_eq!(out[1].time_ns, 4.0f64.to_bits());
    assert_eq!(out[1].hash, "hash");
    assert_eq!(out[1].language, "c");
    assert_eq!(scores.len(), 5);
}

#[test]
fn sort_by_time_orders_ascending() {
    let scores = vec![
        score("x", "c", 2.0, "l"),
        score("y", "c", 1.0, "l"),
        score("z", "c", 3.0, "l"),
    ];
    let out = Builder::new()
        .add_filter(Filter::Sort(SortColumn::Time))
        .build()
        .apply(&scores);
    let times: Vec<f64> = out.iter().map(|s| f64::from_bits(s.time_ns)).collect();
    assert_eq!(times, vec![1.0, 2.0, 3.0]);
    assert_eq!(players(&out), names(&["y", "x", "z"]));
}

#[test]
fn top_and_bottom_keep_an_end() {
    let scores = five();
    let top = Builder::new().add_filter(Filter::Top(2)).build().apply(&scores);
    assert_eq!(players(&top), names(&["a", "b"]));
    let bottom = Builder::new().add_filter(Filter::Bottom(2)).build().apply(&scores);
    assert_eq!(players(&bottom), names(&["d", "e"]));
    let all = Builder::new().add_filter(Filter::Top(9)).build().apply(&scores);
    assert_eq!(all.len(), 5);
    let all = Builder::new().add_filter(Filter::Bottom(5)).build().apply(&scores);
    assert_eq!(players(&all), names(&["a", "b", "c", "d", "e"]));
    let none = Builder::new().add_filter(Filter::Top(0)).build().apply(&scores);
    assert!(none.is_empty());
    let none = Builder::new().add_filter(Filter::Bottom(0)).build().apply(&scores);
    assert!(none.is_empty());
}

#[test]
fn unique_players_keeps_the_first_of_each() {
    let scores = vec![
        score("a", "1", 1.0, "l"),
        score("b", "2", 2.0, "l"),
        score("a", "3", 3.0, "l"),
    ];
    let out = Builder::new().add_filter(Filter::UniquePlayers).build().apply(&scores);
    assert_eq!(players(&out), names(&["a", "b"]));
    assert_eq!(out[0].command, "1");
}

#[test]
fn unique_binaries_goes_by_the_command() {
    let out = Builder::new().add_filter(Filter::UniqueBinaries).build().apply(&five());
    assert_eq!(players(&out), names(&["a", "b", "d"]));
    let out = Builder::new().add_filter(Filter::UniqueLanguages).build().apply(&five());
    assert_eq!(players(&out), names(&["a", "b", "d"]));
    let same_name = vec![score("p", "x", 1.0, "l"), score("p", "y", 2.0, "l")];
    let out = Builder::new().add_filter(Filter::UniqueBinaries).build().apply(&same_name);
    assert_eq!(out.len(), 2);
}

#[test]
fn allow_lists_keep_the_listed() {
    let scores = five();
    let out = Builder::new()
        .add_filter(Filter::Player(names(&["e", "b", "nobody"])))
        .build()
        .apply(&scores);
    assert_eq!(players(&out), names(&["b", "e"]));
    let out = Builder::new()
        .add_filter(Filter::Binary(names(&["x"])))
        .build()
        .apply(&scores);
    assert_eq!(players(&out), names(&["a", "c"]));
    let out = Builder::new()
        .add_filter(Filter::Language(names(&["go", "c"])))
        .build()
        .apply(&scores);
    assert_eq!(players(&out), names(&["b", "d", "e"]));
    let out = Builder::new()
        .add_filter(Filter::Language(names(&["C"])))
        .build()
        .apply(&scores);
    assert!(out.is_empty());
}

#[test]
fn sorting_by_a_text_is_stable() {
    let scores = five();
    let by_command = Builder::new()
        .add_filter(Filter::Sort(SortColumn::Binary))
        .build()
        .apply(&scores);
    assert_eq!(players(&by_command), names(&["a", "c", "b", "e", "d"]));
    let by_language = Builder::new()
        .add_filter(Filter::Sort(SortColumn::Language))
        .build()
        .apply(&scores);
    assert_eq!(players(&by_language), names(&["b", "e", "d", "a", "c"]));
    let by_name = Builder::new()
        .add_filter(Filter::Sort(SortColumn::PlayerName))
        .build()
        .apply(&[score("b", "", 0.0, ""), score("ab", "", 0.0, ""), score("a", "", 0.0, ""), score("B", "", 0.0, "")]);
    assert_eq!(players(&by_name), names(&["B", "a", "ab", "b"]));
}

#[test]
fn sorting_agrees_with_the_sort_of_the_standard_library() {
    let mut scores = Vec::new();
    let words = ["pear", "apple", "fig", "apple", "Zed", "fi", "pear", "", "été", "zebra", "fig"];
    for (i, w) in words.iter().enumerate() {
        scores.push(score(w, &format!("{}", i), ((i * 7) % 5) as f64 + 0.25, w));
    }
    let by_name = Builder::new()
        .add_filter(Filter::Sort(SortColumn::PlayerName))
        .build()
        .apply(&scores);
    let mut expected = scores.clone();
    expected.sort_by(|a, b| a.name.cmp(&b.name));
    let got: Vec<(String, String)> = by_name.iter().map(|s| (s.name.clone(), s.command.clone())).collect();
    let want: Vec<(String, String)> = expected.iter().map(|s| (s.name.clone(), s.command.clone())).collect();
    assert_eq!(got, want);
    let by_time = Builder::new()
        .add_filter(Filter::Sort(SortColumn::Time))
        .build()
        .apply(&scores);
    let mut expected = scores.clone();
    expected.sort_by(|a, b| f64::from_bits(a.time_ns).partial_cmp(&f64::from_bits(b.time_ns)).unwrap());
    let got: Vec<String> = by_time.iter().map(|s| s.command.clone()).collect();
    let want: Vec<String> = expected.iter().map(|s| s.command.clone()).collect();
    assert_eq!(got, want);
}

#[test]
fn rules_apply_in_their_order() {
    let scores = five();
    let sorted_then_cut = Builder::new()
        .add_filter(Filter::Sort(SortColumn::Time))
        .add_filter(Filter::Top(2))
        .build()
        .apply(&scores);
    assert_eq!(players(&sorted_then_cut), names(&["e", "d"]));
    let cut_then_sorted = Builder::new()
        .add_filter(Filter::Top(2))
        .add_filter(Filter::Sort(SortColumn::Time))
        .build()
        .apply(&scores);
    assert_eq!(players(&cut_then_sorted), names(&["b", "a"]));
}

#[test]
fn sort_column_reads_its_names() {
    assert_eq!(SortColumn::parse("Players"), Ok(SortColumn::PlayerName));
    assert_eq!(SortColumn::parse("PLAYER"), Ok(SortColumn::PlayerName));
    assert_eq!(SortColumn::parse("Players"), SortColumn::parse("PLAYER"));
    assert_eq!(SortColumn::parse("name"), Ok(SortColumn::PlayerName));
    assert_eq!(SortColumn::parse("Names"), Ok(SortColumn::PlayerName));
    assert_eq!(SortColumn::parse("binaries"), Ok(SortColumn::Binary));
    assert_eq!(SortColumn::parse("BiNaRy"), Ok(SortColumn::Binary));
    assert_eq!(SortColumn::parse("time"), Ok(SortColumn::Time));
    assert_eq!(SortColumn::parse("TIMES"), Ok(SortColumn::Time));
    assert_eq!(SortColumn::parse("language"), Ok(SortColumn::Language));
    assert_eq!(SortColumn::parse("Languages"), Ok(SortColumn::Language));
    assert_eq!("times".parse::<SortColumn>(), Ok(SortColumn::Time));
    assert_eq!(SortColumn::from_str("Binary"), Ok(SortColumn::Binary));
}

#[test]
fn sort_column_rejects_other_texts() {
    assert_eq!(
        SortColumn::parse("bogus"),
        Err(Error::InvalidSortColumn("bogus".to_string()))
    );
    assert_eq!(
        SortColumn::parse("Bogus").unwrap_err().message(),
        "invalid sort column: Bogus"
    );
    assert!(SortColumn::parse("").is_err());
    assert!(SortColumn::parse("time ").is_err());
    assert!(SortColumn::parse("tim").is_err());
    assert!(SortColumn::parse("timess").is_err());
    assert!(SortColumn::parse("t\u{131}me").is_err());
    assert!(SortColumn::parse("T\u{130}ME").is_err());
    for text in ["Players", "PLAYER", "T\u{130}ME", "bogus", "LANGUAGE", "K", "\u{212a}"] {
        let lower = text.to_lowercase();
        let known = [
            "player", "players", "name", "names", "binaries", "binary", "time", "times",
            "language", "languages",
        ]
        .contains(&lower.as_str());
        assert_eq!(SortColumn::parse(text).is_ok(), known);
    }
}
