use sheet_export::whitelist::{classify, parse_spec, tokens, WhitelistSpec};
use sheet_export::text::chars_of;

fn header(list: &[&str]) -> Vec<String> {
    list.iter().map(|s| s.to_string()).collect()
}

fn index_set(spec: &WhitelistSpec) -> Vec<String> {
    match spec {
        WhitelistSpec::IndexSet(t) => t.clone(),
        other => panic!("not an index set: {other:?}"),
    }
}

fn pattern_set(spec: &WhitelistSpec) -> Vec<String> {
    match spec {
        WhitelistSpec::PatternSet(t) => t.clone(),
        other => panic!("not a pattern set: {other:?}"),
    }
}

#[test]
fn parse_spec_all_and_none() {
    assert!(matches!(parse_spec("all"), WhitelistSpec::All));
    assert!(matches!(parse_spec("ALL"), WhitelistSpec::All));
    assert!(matches!(parse_spec("none"), WhitelistSpec::Nothing));
    assert!(matches!(parse_spec("None"), WhitelistSpec::Nothing));
}

#[test]
fn parse_spec_all_among_tokens_is_a_pattern() {
    assert_eq!(pattern_set(&parse_spec("all,date")), vec!["all", "date"]);
    assert_eq!(pattern_set(&parse_spec(" all")), vec!["all"]);
}

#[test]
fn parse_spec_index_set() {
    assert_eq!(index_set(&parse_spec("0,2")), vec!["0", "2"]);
    assert_eq!(index_set(&parse_spec("7")), vec!["7"]);
    assert_eq!(index_set(&parse_spec("10,1,9,1,+3")), vec!["+3", "1", "1", "10", "9"]);
    assert_eq!(index_set(&parse_spec("0, 2 ,65535")), vec!["0", "2", "65535"]);
}

#[test]
fn parse_spec_pattern_set() {
    assert_eq!(pattern_set(&parse_spec("date,time")), vec!["date", "time"]);
    assert_eq!(
        pattern_set(&parse_spec("date,time,due,opened,closed")),
        vec!["date", "time", "due", "opened", "closed"]
    );
    assert_eq!(pattern_set(&parse_spec(" Date , TIME ")), vec!["date", "time"]);
    assert_eq!(pattern_set(&parse_spec("1,x")), vec!["1", "x"]);
    assert_eq!(pattern_set(&parse_spec("65536")), vec!["65536"]);
    assert_eq!(pattern_set(&parse_spec("-1")), vec!["-1"]);
    assert_eq!(pattern_set(&parse_spec("")), vec![""]);
    assert_eq!(pattern_set(&parse_spec("1,,2")), vec!["1", "", "2"]);
}

#[test]
fn tokens_split_and_trim() {
    assert_eq!(tokens(&chars_of("a, b ,,c ")), vec!["a", "b", "", "c"]);
    assert_eq!(tokens(&chars_of("")), vec![""]);
    assert_eq!(tokens(&chars_of(",")), vec!["", ""]);
}

#[test]
fn classify_all_flags_every_column() {
    let spec = parse_spec("all");
    assert_eq!(classify(&spec, &header(&["a", "", "Date", "42"])), vec![true, true, true, true]);
    assert_eq!(classify(&spec, &header(&[])), Vec::<bool>::new());
    assert_eq!(classify(&spec, &header(&["x"])), vec![true]);
}

#[test]
fn classify_none_flags_no_column() {
    let spec = parse_spec("none");
    assert_eq!(classify(&spec, &header(&["OrderDate", "time"])), vec![false, false]);
}

#[test]
fn classify_by_position() {
    let spec = parse_spec("0,2");
    assert_eq!(classify(&spec, &header(&["a", "b", "c"])), vec![true, false, true]);
    let spec = parse_spec("10,1");
    let wide: Vec<String> = (0..12).map(|i| format!("c{i}")).collect();
    let flags = classify(&spec, &wide);
    for (i, flag) in flags.iter().enumerate() {
        assert_eq!(*flag, i == 1 || i == 10, "column {i}");
    }
}

#[test]
fn classify_by_position_takes_numerals_as_written() {
    let spec = parse_spec("01,+2");
    assert_eq!(classify(&spec, &header(&["a", "b", "c"])), vec![false, false, false]);
}

#[test]
fn classify_by_pattern() {
    let spec = parse_spec("date,time");
    assert_eq!(
        classify(&spec, &header(&["OrderDate", "Amount", "DueTime"])),
        vec![true, false, true]
    );
}

#[test]
fn classify_by_default_patterns() {
    let spec = parse_spec("date,time,due,opened,closed");
    assert_eq!(
        classify(&spec, &header(&["Opened On", "CLOSED", "Owner", "overDUE", "id"])),
        vec![true, true, false, true, false]
    );
}

#[test]
fn classify_empty_pattern_matches_every_header() {
    let spec = parse_spec("date,");
    assert_eq!(classify(&spec, &header(&["Amount", ""])), vec![true, true]);
}

#[test]
fn whitelist_well_formedness() {
    assert!(parse_spec("10,1,9").is_well_formed());
    assert!(parse_spec("b,a").is_well_formed());
    assert!(WhitelistSpec::All.is_well_formed());
    assert!(WhitelistSpec::IndexSet(header(&["1", "1", "2"])).is_well_formed());
    assert!(WhitelistSpec::IndexSet(header(&[])).is_well_formed());
    assert!(!WhitelistSpec::IndexSet(header(&["2", "1"])).is_well_formed());
    assert!(!WhitelistSpec::IndexSet(header(&["1", "3", "2"])).is_well_formed());
}
