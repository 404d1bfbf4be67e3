use last::config::{
    config_path, config_value, default_architectures, default_true, get_value, list_values, set_value, BucketSource,
    Config, MirrorConfig,
};
use last::error::LastError;
use last::json::{get_path_exec, json_merge, set_path_exec, JsonValue};

fn s(x: &str) -> String {
    x.to_string()
}

fn str_val(x: &str) -> JsonValue {
    JsonValue::Str(s(x))
}

fn sample() -> JsonValue {
    JsonValue::Object(vec![
        (s("powershell_compat"), JsonValue::Bool(true)),
        (
            s("mirror"),
            JsonValue::Object(vec![(s("binary_share"), str_val("\\\\srv\\sw")), (s("bucket_path"), str_val(""))]),
        ),
    ])
}

#[test]
fn defaults() {
    let c = Config::default();
    assert_eq!(c.architectures, vec![s("64bit")]);
    assert!(c.powershell_compat);
    assert!(c.buckets.is_empty());
    assert!(c.bucket_order.is_empty());
    let m = MirrorConfig::default();
    assert_eq!(m.architectures, vec![s("64bit")]);
    assert_eq!(m.binary_share, "");
    assert_eq!(default_architectures(), vec![s("64bit")]);
    assert!(default_true());
    assert_eq!(config_path("C:\\last"), "C:\\last\\config.json");
}

#[test]
fn buckets_keep_registration_order() {
    let mut c = Config::default();
    c.add_bucket("main", BucketSource::Local { path: s("C:\\b\\main") }).unwrap();
    c.add_bucket("extras", BucketSource::Zip { url: s("https://h/extras.zip") }).unwrap();
    let names: Vec<String> = c.ordered_buckets().into_iter().map(|(n, _)| n).collect();
    assert_eq!(names, vec![s("main"), s("extras")]);
    match c.add_bucket("main", BucketSource::Local { path: s("x") }) {
        Err(LastError::BucketAlreadyExists(n)) => assert_eq!(n, "main"),
        _ => panic!("duplicate bucket"),
    }
}

#[test]
fn removing_a_bucket() {
    let mut c = Config::default();
    c.add_bucket("a", BucketSource::Local { path: s("A") }).unwrap();
    c.add_bucket("b", BucketSource::Local { path: s("B") }).unwrap();
    c.remove_bucket("a").unwrap();
    let names: Vec<String> = c.ordered_buckets().into_iter().map(|(n, _)| n).collect();
    assert_eq!(names, vec![s("b")]);
    match c.remove_bucket("a") {
        Err(LastError::BucketNotFound(n)) => assert_eq!(n, "a"),
        _ => panic!("no such bucket"),
    }
}

#[test]
fn add_then_remove_restores() {
    let mut c = Config::default();
    c.add_bucket("a", BucketSource::Local { path: s("A") }).unwrap();
    c.add_bucket("tmp", BucketSource::Zip { url: s("u") }).unwrap();
    c.remove_bucket("tmp").unwrap();
    let names: Vec<String> = c.ordered_buckets().into_iter().map(|(n, _)| n).collect();
    assert_eq!(names, vec![s("a")]);
    assert_eq!(c.bucket_order, vec![s("a")]);
}

#[test]
fn dotted_get() {
    let v = sample();
    assert_eq!(get_value(&v, "mirror.binary_share").unwrap(), str_val("\\\\srv\\sw"));
    assert_eq!(get_value(&v, "powershell_compat").unwrap(), JsonValue::Bool(true));
    match get_value(&v, "mirror.nope") {
        Err(LastError::UnknownConfigKey(k)) => assert_eq!(k, "mirror.nope"),
        _ => panic!("unknown key"),
    }
    assert_eq!(get_path_exec(&v, "powershell_compat.x"), None);
}

#[test]
fn set_then_get() {
    let mut v = sample();
    set_value(&mut v, "mirror.bucket_path", str_val("C:\\repo"));
    assert_eq!(get_value(&v, "mirror.bucket_path").unwrap(), str_val("C:\\repo"));
    assert_eq!(get_value(&v, "mirror.binary_share").unwrap(), str_val("\\\\srv\\sw"));
    set_value(&mut v, "new.deep.key", JsonValue::Number(s("3")));
    assert_eq!(get_value(&v, "new.deep.key").unwrap(), JsonValue::Number(s("3")));
    set_path_exec(&mut v, "powershell_compat", JsonValue::Bool(false));
    assert_eq!(get_value(&v, "powershell_compat").unwrap(), JsonValue::Bool(false));
}

#[test]
fn raw_values() {
    assert_eq!(config_value("true"), JsonValue::Bool(true));
    assert_eq!(config_value("C:\\x"), str_val("C:\\x"));
    assert_eq!(config_value("42"), JsonValue::Number(s("42")));
    assert_eq!(config_value("[\"64bit\", \"arm64\"]"), JsonValue::Array(vec![str_val("64bit"), str_val("arm64")]));
    assert_eq!(config_value("{\"b\": 1, \"a\": null}"), JsonValue::Object(vec![(s("a"), JsonValue::Null), (s("b"), JsonValue::Number(s("1")))]));
    assert_eq!(config_value("\"quoted\""), str_val("quoted"));
}

#[test]
fn listing_flattens_objects() {
    let list = list_values(&sample());
    let keys: Vec<String> = list.iter().map(|(k, _)| k.clone()).collect();
    assert_eq!(keys, vec![s("powershell_compat"), s("mirror.binary_share"), s("mirror.bucket_path")]);
    assert_eq!(list[1].1, str_val("\\\\srv\\sw"));
}

#[test]
fn merge_objects_key_by_key() {
    let base = JsonValue::Object(vec![
        (s("a"), JsonValue::Number(s("1"))),
        (s("o"), JsonValue::Object(vec![(s("x"), JsonValue::Bool(true))])),
    ]);
    let overlay = JsonValue::Object(vec![
        (s("o"), JsonValue::Object(vec![(s("y"), JsonValue::Null)])),
        (s("b"), str_val("new")),
    ]);
    let merged = json_merge(base, &overlay);
    assert_eq!(
        merged,
        JsonValue::Object(vec![
            (s("a"), JsonValue::Number(s("1"))),
            (s("o"), JsonValue::Object(vec![(s("x"), JsonValue::Bool(true)), (s("y"), JsonValue::Null)])),
            (s("b"), str_val("new")),
        ])
    );
}

#[test]
fn non_object_overlay_replaces() {
    let base = JsonValue::Object(vec![(s("a"), JsonValue::Null)]);
    assert_eq!(json_merge(base, &JsonValue::Bool(false)), JsonValue::Bool(false));
    assert_eq!(json_merge(JsonValue::Null, &str_val("x")), str_val("x"));
}

#[test]
fn set_raw_text_then_get() {
    let mut v = sample();
    set_value(&mut v, "mirror.binary_share", config_value("\\\\srv\\software"));
    assert_eq!(get_value(&v, "mirror.binary_share").unwrap(), str_val("\\\\srv\\software"));
    set_value(&mut v, "powershell_compat", config_value("false"));
    assert_eq!(get_value(&v, "powershell_compat").unwrap(), JsonValue::Bool(false));
}
