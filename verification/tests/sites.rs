use example_monitoring_web::sites::url_message_from;
use example_monitoring_web::sites::created_site_location;
use example_monitoring_web::sites::site_errors_from;
use example_monitoring_web::sites::{
    clean_codes, codes_from_cleaned, parse_status_codes, prepare_site, site_form_errors,
    validate_site_form,
};

#[test]
fn status_codes_are_cleaned_and_checked() {
    assert_eq!(parse_status_codes("200").as_deref(), Some("200"));
    assert_eq!(parse_status_codes(" 200 , 204,, ").as_deref(), Some("200,204"));
    assert_eq!(parse_status_codes(""), None);
    assert_eq!(parse_status_codes(" , "), None);
    assert_eq!(parse_status_codes("99"), None);
    assert_eq!(parse_status_codes("099"), None);
    assert_eq!(parse_status_codes("600"), None);
    assert_eq!(parse_status_codes("599,100").as_deref(), Some("599,100"));
    assert_eq!(parse_status_codes("2000"), None);
    assert_eq!(parse_status_codes("200;204"), None);
    assert_eq!(parse_status_codes("+200"), None);
}

#[test]
fn cleaning_and_checking_steps() {
    assert_eq!(clean_codes(" 1 ,, 2 "), "1,2");
    assert_eq!(codes_from_cleaned("200,204", Some(true)).as_deref(), Some("200,204"));
    assert_eq!(codes_from_cleaned("200,204", Some(false)), None);
    assert_eq!(codes_from_cleaned("200,204", None), None);
    assert_eq!(codes_from_cleaned("200,700", Some(true)), None);
    assert_eq!(codes_from_cleaned("", Some(true)), None);
}

#[test]
fn every_field_error() {
    let e = site_form_errors(" ", "http://example.com", "10", "abc", "0");
    assert_eq!(e.get("name").map(String::as_str), Some("Name is required."));
    assert_eq!(e.get("url").map(String::as_str), Some("URL must use HTTPS."));
    assert_eq!(
        e.get("poll_interval_seconds").map(String::as_str),
        Some("Minimum interval is 30 seconds.")
    );
    assert_eq!(
        e.get("ok_status_codes").map(String::as_str),
        Some("Use comma-separated HTTP status codes (e.g. 200,204).")
    );
    assert_eq!(e.get("max_retries").map(String::as_str), Some("At least one attempt is required."));
    let e2 = site_form_errors("x", "https://a", "sixty", "200", "three");
    assert_eq!(e2.get("url").map(String::as_str), Some("Enter a valid HTTPS URL."));
    assert_eq!(e2.get("poll_interval_seconds").map(String::as_str), Some("Interval must be a number."));
    assert_eq!(e2.get("max_retries").map(String::as_str), Some("Retries must be a number."));
    assert_eq!(e2.get("name"), None);
    assert_eq!(e2.get("ok_status_codes"), None);
    let e3 = site_form_errors("x", "not a url", "30", "200", "1");
    assert_eq!(e3.get("url").map(String::as_str), Some("URL must use HTTPS."));
}

#[test]
fn validate_message_is_one_of_the_errors() {
    let (message, values) = validate_site_form(" ", "https://example.com", "60", "200", "3");
    assert_eq!(message, "Name is required.");
    assert_eq!(values.get("url").map(String::as_str), Some("https://example.com"));
    assert_eq!(values.get("name").map(String::as_str), Some(" "));
    let (ok, _) = validate_site_form("Site", "https://example.com/health", "60", "200,204", "3");
    assert_eq!(ok, "");
    let (two, _) = validate_site_form("", "ftp://x.y", "60", "200", "3");
    assert!(two == "Name is required." || two == "URL must use HTTPS.");
}

#[test]
fn prepared_site_values() {
    let site = prepare_site(" My site ", " https://example.com/ ", "60", " 200, 204", "+3").ok().unwrap();
    assert_eq!(site.name, "My site");
    assert_eq!(site.url, "https://example.com/");
    assert_eq!(site.poll_interval_seconds, 60);
    assert_eq!(site.ok_status_codes, "200,204");
    assert_eq!(site.max_retries, 3);
    let err = prepare_site("s", "https://example.com", "29", "200", "1");
    match err {
        Err((message, values)) => {
            assert_eq!(message, "Minimum interval is 30 seconds.");
            assert_eq!(values.get("poll_interval_seconds").map(String::as_str), Some("29"));
        }
        Ok(_) => panic!("interval below 30 accepted"),
    }
}

#[test]
fn url_messages_from_parser_results() {
    assert_eq!(url_message_from(Some(("https".to_string(), true)), Some(true)), None);
    assert_eq!(
        url_message_from(Some(("https".to_string(), true)), Some(false)).as_deref(),
        Some("Enter a valid HTTPS URL.")
    );
    assert_eq!(
        url_message_from(Some(("https".to_string(), true)), None).as_deref(),
        Some("Enter a valid HTTPS URL.")
    );
    assert_eq!(
        url_message_from(Some(("https".to_string(), false)), Some(true)).as_deref(),
        Some("URL must use HTTPS.")
    );
    assert_eq!(
        url_message_from(Some(("http".to_string(), true)), Some(true)).as_deref(),
        Some("URL must use HTTPS.")
    );
    assert_eq!(url_message_from(None, Some(true)).as_deref(), Some("URL must use HTTPS."));
}

#[test]
fn errors_from_parts() {
    let e = site_errors_from("n", "30", "1", None, true);
    assert!(e.is_empty());
    let e = site_errors_from("n", "30", "1", Some("URL must use HTTPS.".to_string()), false);
    assert_eq!(e.get("url").map(String::as_str), Some("URL must use HTTPS."));
    assert_eq!(
        e.get("ok_status_codes").map(String::as_str),
        Some("Use comma-separated HTTP status codes (e.g. 200,204).")
    );
    assert_eq!(e.get("name"), None);
}

#[test]
fn accepted_codes_are_a_fixed_point() {
    for raw in ["200", " 200 , 204,, ", "599,100", ",301 ,302,", "404"] {
        let c = parse_status_codes(raw).unwrap();
        assert_eq!(parse_status_codes(&c), Some(c.clone()));
    }
}

#[test]
fn created_site_locations() {
    assert_eq!(created_site_location(Some(12)).as_deref(), Some("/sites/12"));
    assert_eq!(created_site_location(Some(-3)).as_deref(), Some("/sites/-3"));
    assert_eq!(created_site_location(None), None);
}
