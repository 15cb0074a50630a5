use country_lookup::dataset::CountryTable;

fn countries(based: &str) -> Vec<String> {
    CountryTable::new().handle(based).results.into_iter().map(|e| e.country).collect()
}

#[test]
fn empty_query_gives_no_results() {
    assert!(countries("").is_empty());
}

#[test]
fn empty_tokens_are_skipped() {
    assert_eq!(countries(",japan,,korea,"), vec!["japan", "korea"]);
}

#[test]
fn mixed_case_is_kept_in_output() {
    assert_eq!(countries("Japan,sOuTh KoReA"), vec!["Japan", "sOuTh KoReA"]);
}

#[test]
fn surrounding_white_space_is_trimmed() {
    assert_eq!(countries("  japan\t, \n united states  "), vec!["japan", "united states"]);
}

#[test]
fn inner_white_space_is_kept() {
    assert!(countries("south  korea").is_empty());
    assert!(countries("unitedstates").is_empty());
}

#[test]
fn partial_names_do_not_match() {
    assert!(countries("jap,japanese,u").is_empty());
}

#[test]
fn order_of_the_query_is_kept() {
    assert_eq!(countries("usa,china,japan"), vec!["usa", "china", "japan"]);
    assert_eq!(countries("japan,china,usa"), vec!["japan", "china", "usa"]);
}

#[test]
fn unknown_tokens_leave_gaps_only() {
    assert_eq!(countries("x,denmark,y,norway,z"), vec!["denmark", "norway"]);
}

#[test]
fn repeated_tokens_repeat_entries() {
    let response = CountryTable::new().handle("uk,uk,united kingdom");
    assert_eq!(response.results.len(), 3);
    for e in &response.results {
        assert_eq!(e.flag, "🇬🇧");
        assert_eq!(e.currency_code, "GBP");
    }
}

#[test]
fn repeated_calls_agree() {
    let table = CountryTable::new();
    let q = "japan, Unknown ,KOREA,usa";
    let first = table.handle(q);
    for _ in 0..3 {
        let again = table.handle(q);
        let other = CountryTable::new().handle(q);
        assert_eq!(first.results.len(), again.results.len());
        assert_eq!(first.results.len(), other.results.len());
        for i in 0..first.results.len() {
            assert_eq!(first.results[i].country, again.results[i].country);
            assert_eq!(first.results[i].flag, again.results[i].flag);
            assert_eq!(first.results[i].currency_code, again.results[i].currency_code);
            assert_eq!(first.results[i].country, other.results[i].country);
        }
    }
    assert_eq!(first.results.len(), 3);
}
