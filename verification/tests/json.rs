use stormstorage::json::{write_json, Json};

fn text(s: &str) -> Json {
    Json::Text(s.into())
}

fn sample() -> Json {
    Json::Object(vec![
        ("a \"b\"\n".into(), Json::List(vec![Json::Null, Json::Bool(true), Json::Bool(false)])),
        ("empty".into(), Json::List(vec![])),
        ("n".into(), Json::List(vec![
            Json::Unsigned(0),
            Json::Unsigned(u64::MAX),
            Json::Negative(-1),
            Json::Negative(i64::MIN),
            Json::Real("1.5".into()),
        ])),
        ("none".into(), Json::Object(vec![])),
        ("t".into(), text("é\u{1}\\/\t\u{1F600}")),
    ])
}

#[test]
fn what_is_written_is_what_serde_json_writes() {
    let ours = write_json(&sample());
    let read: serde_json::Value = serde_json::from_str(&ours).unwrap();
    assert_eq!(read.to_string(), ours);
    assert_eq!(read["n"][3].as_i64(), Some(i64::MIN));
    assert_eq!(read["t"].as_str(), Some("é\u{1}\\/\t\u{1F600}"));
}

#[test]
fn values_are_looked_up() {
    let v = sample();
    assert_eq!(v.text_at("t").unwrap(), "é\u{1}\\/\t\u{1F600}");
    assert!(v.text_at("n").is_none() && v.number_at("t").is_none() && v.list_at("t").is_none());
    assert_eq!(v.list_at("n").unwrap()[1].number(), Some(u64::MAX));
    assert_eq!(v.list_at("n").unwrap()[2].number(), None, "a negative number is no count");
    assert_eq!(v.list_at("n").unwrap()[4].number(), None);
    assert!(v.at("zz").is_none() && Json::Null.at("t").is_none());
}
