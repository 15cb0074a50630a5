use country_lookup::dataset::CountryTable;
use country_lookup::handler::CountryResponse;

fn query(based: &str) -> CountryResponse {
    CountryTable::new().handle(based)
}

#[test]
fn test_get_country_single() {
    let response = query("japan");
    assert_eq!(response.results.len(), 1);
    assert_eq!(response.results[0].country, "japan");
    assert_eq!(response.results[0].flag, "🇯🇵");
    assert_eq!(response.results[0].currency_code, "JPY");
}

#[test]
fn test_get_country_multiple() {
    let response = query("japan,korea");
    assert_eq!(response.results.len(), 2);
    assert_eq!(response.results[0].country, "japan");
    assert_eq!(response.results[0].flag, "🇯🇵");
    assert_eq!(response.results[0].currency_code, "JPY");
    assert_eq!(response.results[1].country, "korea");
    assert_eq!(response.results[1].flag, "🇰🇷");
    assert_eq!(response.results[1].currency_code, "KRW");
}

#[test]
fn test_get_country_case_insensitive() {
    let response = query("JAPAN");
    assert_eq!(response.results.len(), 1);
    assert_eq!(response.results[0].country, "JAPAN");
    assert_eq!(response.results[0].flag, "🇯🇵");
    assert_eq!(response.results[0].currency_code, "JPY");
}

#[test]
fn test_get_country_unknown() {
    let response = query("unknown");
    assert_eq!(response.results.len(), 0);
}

#[test]
fn test_get_country_with_spaces() {
    let response = query("japan, korea, usa");
    assert_eq!(response.results.len(), 3);
    assert_eq!(response.results[0].country, "japan");
    assert_eq!(response.results[1].country, "korea");
    assert_eq!(response.results[2].country, "usa");
}

#[test]
fn test_get_country_mixed_valid_invalid() {
    let response = query("japan,unknown,korea");
    assert_eq!(response.results.len(), 2);
    assert_eq!(response.results[0].country, "japan");
    assert_eq!(response.results[1].country, "korea");
}

#[test]
fn test_get_country_all_supported() {
    let response = query("usa,uk,germany");
    assert_eq!(response.results.len(), 3);
    assert_eq!(response.results[0].flag, "🇺🇸");
    assert_eq!(response.results[0].currency_code, "USD");
    assert_eq!(response.results[1].flag, "🇬🇧");
    assert_eq!(response.results[1].currency_code, "GBP");
    assert_eq!(response.results[2].flag, "🇩🇪");
    assert_eq!(response.results[2].currency_code, "EUR");
}
