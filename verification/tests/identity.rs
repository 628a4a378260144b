use scoreboard::identity::parse_real_name;

#[test]
fn the_fifth_field_up_to_its_comma_is_the_name() {
    assert_eq!(
        parse_real_name("foo:x:1000:1000:Foo Bar,,,:/home/foo:/bin/bash\n"),
        Some("Foo Bar".to_string())
    );
    assert_eq!(
        parse_real_name("foo:x:1000:1000:Foo Bar:/home/foo:/bin/sh"),
        Some("Foo Bar".to_string())
    );
    assert_eq!(parse_real_name("a:b:c:d:Zoë Ünal,room 4"), Some("Zoë Ünal".to_string()));
    assert_eq!(parse_real_name("a:b:c:d:e"), Some("e".to_string()));
    assert_eq!(parse_real_name("a:b:c:d:"), Some(String::new()));
    assert_eq!(parse_real_name("a:b:c:d:,x"), Some(String::new()));
    assert_eq!(parse_real_name("::::"), Some(String::new()));
    assert_eq!(parse_real_name("a,b:c:d,e:f:g h,i:j"), Some("g h".to_string()));
}

#[test]
fn an_entry_of_too_few_fields_gives_no_name() {
    assert_eq!(parse_real_name(""), None);
    assert_eq!(parse_real_name("\n"), None);
    assert_eq!(parse_real_name("foo"), None);
    assert_eq!(parse_real_name("a:b:c:d"), None);
    assert_eq!(parse_real_name("a,b,c,d,e"), None);
}

#[test]
fn the_name_is_what_splitting_gives() {
    for entry in ["x:y:z:1:Name One,2,3:h:s", "a:b", "p:q:r:s:t:u", ":::::", "é:é:é:é:é,é"] {
        let fields: Vec<&str> = entry.split(':').collect();
        let expected = fields
            .get(4)
            .map(|full| full.split(',').next().unwrap_or("").to_string());
        assert_eq!(parse_real_name(entry), expected);
    }
}
