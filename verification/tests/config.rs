use bulk_delete::config::{Config, ConfigError, Settings};

fn text(s: &str) -> Option<String> {
    Some(String::from(s))
}

#[test]
fn missing_base_url_is_an_error() {
    let s = Settings { base_url: None, query: text("?q=x"), api_token: text("t"), delete_url: None };
    assert_eq!(Config::resolve(s).unwrap_err(), ConfigError::MissingBaseUrl);
}

#[test]
fn missing_query_is_an_error() {
    let s = Settings { base_url: text("http://h/a"), query: None, api_token: text("t"), delete_url: None };
    assert_eq!(Config::resolve(s).unwrap_err(), ConfigError::MissingQuery);
}

#[test]
fn missing_token_is_an_error() {
    let s = Settings { base_url: text("http://h/a"), query: text(""), api_token: None, delete_url: None };
    assert_eq!(Config::resolve(s).unwrap_err(), ConfigError::MissingToken);
}

#[test]
fn first_missing_setting_is_reported() {
    let s = Settings { base_url: None, query: None, api_token: None, delete_url: None };
    assert_eq!(Config::resolve(s).unwrap_err(), ConfigError::MissingBaseUrl);
    let s = Settings { base_url: text("b"), query: None, api_token: None, delete_url: text("d") };
    assert_eq!(Config::resolve(s).unwrap_err(), ConfigError::MissingQuery);
}

#[test]
fn delete_base_defaults_to_the_list_base_with_a_separator() {
    let s = Settings {
        base_url: text("http://localhost/api/v2/advisory"),
        query: text("?q=modified"),
        api_token: text("blah"),
        delete_url: None,
    };
    let c = Config::resolve(s).unwrap();
    assert_eq!(c.base_url, "http://localhost/api/v2/advisory");
    assert_eq!(c.query, "?q=modified");
    assert_eq!(c.token, "blah");
    assert_eq!(c.delete_base, "http://localhost/api/v2/advisory/");
}

#[test]
fn delete_base_default_keeps_a_separator_that_is_there() {
    let s = Settings { base_url: text("http://h/a/"), query: text(""), api_token: text("t"), delete_url: None };
    assert_eq!(Config::resolve(s).unwrap().delete_base, "http://h/a/");
}

#[test]
fn delete_url_replaces_the_default() {
    let s = Settings {
        base_url: text("http://h/analysis/component"),
        query: text("?q=x"),
        api_token: text("t"),
        delete_url: text("http://h/api/v2/sbom/"),
    };
    assert_eq!(Config::resolve(s).unwrap().delete_base, "http://h/api/v2/sbom/");
    let s = Settings {
        base_url: text("http://h/analysis/component"),
        query: text("?q=x"),
        api_token: text("t"),
        delete_url: text("http://h/api/v2/sbom"),
    };
    assert_eq!(Config::resolve(s).unwrap().delete_base, "http://h/api/v2/sbom/");
}
