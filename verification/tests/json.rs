use example_monitoring_web::json::{find_member, json_int, json_member, Json};

#[test]
fn json_member_takes_the_last_of_a_name() {
    let obj = Json::Object(vec![
        ("a".to_string(), Json::Number(Some(1))),
        ("b".to_string(), Json::Str("x".to_string())),
        ("a".to_string(), Json::Number(Some(2))),
    ]);
    assert!(matches!(json_member(&obj, "a"), Some(Json::Number(Some(2)))));
    assert!(matches!(json_member(&obj, "b"), Some(Json::Str(s)) if s == "x"));
    assert!(json_member(&obj, "c").is_none());
    assert!(json_member(&Json::Array(vec![]), "a").is_none());
    if let Json::Object(members) = &obj {
        assert!(matches!(find_member(members, "a"), Some(Json::Number(Some(2)))));
    }
}

#[test]
fn json_integer_readings() {
    assert_eq!(json_int(&Json::Number(Some(-7))), Some(-7));
    assert_eq!(json_int(&Json::Number(None)), None);
    assert_eq!(json_int(&Json::Str("7".to_string())), None);
    assert_eq!(json_int(&Json::Null), None);
    assert_eq!(json_int(&Json::Bool(true)), None);
}
