use catgirl_parser::files::cache_save_load::{CacheError, ImageCountCache};
use catgirl_parser::files::config_parse::{
    choose_config_source, read_site_answer, site_function_key, ConfigSource,
};

#[test]
fn cache_insert_and_get() {
    let mut c = ImageCountCache::new();
    assert_eq!(c.len(), 0);
    assert_eq!(c.get(&"a".to_string()), None);
    c.insert("a".to_string(), [10, 20]);
    c.insert("b".to_string(), [11, 21]);
    assert_eq!(c.get(&"a".to_string()), Some([10, 20]));
    c.insert("a".to_string(), [12, 22]);
    assert_eq!(c.get(&"a".to_string()), Some([12, 22]));
    assert_eq!(c.get(&"b".to_string()), Some([11, 21]));
    assert_eq!(c.len(), 2);
}

#[test]
fn later_entries_win() {
    let d = ImageCountCache::from_entries(vec![
        ("k".to_string(), [1, 1]),
        ("k".to_string(), [2, 2]),
    ]);
    assert_eq!(d.get(&"k".to_string()), Some([2, 2]));
    assert_eq!(d.len(), 1);
}

#[test]
fn config_source_choice() {
    assert!(matches!(choose_config_source(None), ConfigSource::Default));
    assert!(matches!(choose_config_source(Some(vec![])), ConfigSource::Default));
    match choose_config_source(Some(b"return {}".to_vec())) {
        ConfigSource::Text(s) => assert_eq!(s, "return {}"),
        other => panic!("unexpected {:?}", other),
    }
    assert!(matches!(choose_config_source(Some(vec![0xff, 0xfe])), ConfigSource::NotUtf8(_)));
}

#[test]
fn function_keys() {
    assert_eq!(site_function_key("yande.re", "make_request"), "sites.yande.re.make_request");
    assert_eq!(site_function_key("", ""), "sites..");
}

#[test]
fn cache_json_text() {
    let mut c = ImageCountCache::new();
    assert_eq!(c.to_json(), "{}");
    c.insert("b".to_string(), [11, 21]);
    c.insert("a".to_string(), [10, 20]);
    assert_eq!(c.to_json(), r#"{"a":[10,20],"b":[11,21]}"#);
}

#[test]
fn cache_json_round_trip() {
    let mut c = ImageCountCache::new();
    c.insert("key one".to_string(), [1_700_000_000, 12345]);
    c.insert("key two".to_string(), [5, 0]);
    let text = c.to_json();
    let d = ImageCountCache::from_json(text.as_bytes()).unwrap();
    assert_eq!(d.len(), 2);
    assert_eq!(d.get(&"key one".to_string()), Some([1_700_000_000, 12345]));
    assert_eq!(d.get(&"key two".to_string()), Some([5, 0]));
    assert_eq!(d.to_json(), text);
}

#[test]
fn cache_json_errors() {
    assert!(matches!(ImageCountCache::from_json(b"not json"), Err(CacheError::Json(_))));
    assert!(matches!(ImageCountCache::from_json(br#"{"a":[1]}"#), Err(CacheError::Json(_))));
    let d = ImageCountCache::from_json(br#"{"a":[1,2],"a":[3,4]}"#).unwrap();
    assert_eq!(d.get(&"a".to_string()), Some([3, 4]));
}

#[test]
fn site_answers_as_json() {
    let v = read_site_answer(r#"[{"id": 1, "tags": "a b"}]"#).unwrap();
    assert_eq!(v[0]["id"], 1);
    assert_eq!(v[0]["tags"], "a b");
    assert!(read_site_answer("[]").unwrap().as_array().unwrap().is_empty());
    assert!(read_site_answer("<html>").is_err());
    assert!(read_site_answer("").is_err());
}

#[test]
fn cache_json_keys_in_byte_order() {
    let mut c = ImageCountCache::new();
    for (k, v) in [("b", 2), ("é", 5), ("a", 1), ("ab", 3), ("Z", 0)] {
        c.insert(k.to_string(), [v, v]);
    }
    c.insert("ab".to_string(), [9, 9]);
    assert_eq!(c.len(), 5);
    assert_eq!(
        c.to_json(),
        r#"{"Z":[0,0],"a":[1,1],"ab":[9,9],"b":[2,2],"é":[5,5]}"#
    );
    let d = ImageCountCache::from_entries(vec![
        ("y".to_string(), [1, 2]),
        ("x".to_string(), [3, 4]),
        ("y".to_string(), [5, 6]),
    ]);
    assert_eq!(d.to_json(), r#"{"x":[3,4],"y":[5,6]}"#);
}
