use last::path::{
    add_user_path_entry, extension_exec, file_name_exec, file_stem_exec, is_local_path, is_unc_path, join_exec,
    last_segment_exec, reg_query_value, remove_user_path_entry, root_from,
};
use last::text::{decimal_exec, join_exec as join_text, lower_exec, split_exec, trim_exec};

#[test]
fn join_puts_one_backslash_between() {
    assert_eq!(join_exec("C:\\last", "apps"), "C:\\last\\apps");
    assert_eq!(join_exec("C:\\last\\", "apps"), "C:\\last\\apps");
    assert_eq!(join_exec("", "apps"), "apps");
    assert_eq!(join_exec("C:\\last", "D:\\other"), "D:\\other");
    assert_eq!(join_exec("C:\\last", "\\root"), "C:\\root");
    assert_eq!(join_exec("\\\\srv\\share\\dir", "\\root"), "\\\\srv\\share\\root");
    assert_eq!(join_exec("\\\\srv\\share", "\\root"), "\\\\srv\\share\\root");
    assert_eq!(join_exec("\\\\srv\\share\\dir", "sub"), "\\\\srv\\share\\dir\\sub");
    assert_eq!(join_exec("rel\\dir", "\\root"), "\\root");
    assert_eq!(join_exec("C:", "x"), "C:x");
    assert_eq!(join_exec("C:\\a", "\\\\srv\\share"), "\\\\srv\\share");
    assert_eq!(join_exec("\\\\srv\\sw", "Windows"), "\\\\srv\\sw\\Windows");
    assert_eq!(join_exec("a", "1:x"), "a\\1:x");
}

#[test]
fn last_segment_after_either_separator() {
    assert_eq!(last_segment_exec("https://host/dir/file.zip"), "file.zip");
    assert_eq!(last_segment_exec("a\\b"), "b");
    assert_eq!(last_segment_exec("plain"), "plain");
    assert_eq!(last_segment_exec("dir/"), "");
}

#[test]
fn file_name_and_stem_follow_path_rules() {
    assert_eq!(file_name_exec("C:\\x\\tool.exe"), Some("tool.exe".to_string()));
    assert_eq!(file_name_exec("C:\\x\\dir\\"), Some("dir".to_string()));
    assert_eq!(file_name_exec("a\\.."), None);
    assert_eq!(file_stem_exec("bin\\tool.exe"), Some("tool".to_string()));
    assert_eq!(file_stem_exec(".gitignore"), Some(".gitignore".to_string()));
    assert_eq!(file_stem_exec("archive.tar.gz"), Some("archive.tar".to_string()));
    assert_eq!(extension_exec("archive.tar.gz"), Some("gz".to_string()));
    assert_eq!(extension_exec(".gitignore"), None);
    assert_eq!(extension_exec("name."), Some("".to_string()));
}

#[test]
fn unc_and_local_paths() {
    assert!(is_unc_path("\\\\server\\share\\file.zip"));
    assert!(!is_unc_path("C:\\file.zip"));
    assert!(is_local_path("\\\\server\\share\\file.zip"));
    assert!(is_local_path("C:\\software\\file.zip"));
    assert!(is_local_path("C:/software/file.zip"));
    assert!(is_local_path("relative\\file.zip"));
    assert!(!is_local_path("https://example.com/file.zip"));
    assert!(!is_local_path("ftp://example.com/file.zip"));
}

#[test]
fn path_entry_is_added_once() {
    assert_eq!(add_user_path_entry("C:\\a;C:\\b", "C:\\c"), Some("C:\\a;C:\\b;C:\\c".to_string()));
    assert_eq!(add_user_path_entry("C:\\a;C:\\B", "c:\\b"), None);
    assert_eq!(add_user_path_entry("   ", "C:\\c"), Some("C:\\c".to_string()));
    let added = add_user_path_entry("C:\\a", "C:\\c").unwrap();
    assert_eq!(add_user_path_entry(&added, "C:\\c"), None);
}

#[test]
fn path_entry_is_removed_in_any_case() {
    assert_eq!(remove_user_path_entry(Some("C:\\a;C:\\B;C:\\c"), "c:\\b"), Some("C:\\a;C:\\c".to_string()));
    assert_eq!(remove_user_path_entry(None, "C:\\b"), None);
}

#[test]
fn removing_an_added_entry_restores_path() {
    let before = "C:\\a;C:\\b";
    let added = add_user_path_entry(before, "C:\\shims").unwrap();
    assert_eq!(remove_user_path_entry(Some(&added), "C:\\shims"), Some(before.to_string()));
}

#[test]
fn reg_query_value_after_type() {
    let out = "\r\nHKEY_CURRENT_USER\\Environment\r\n    Path    REG_EXPAND_SZ    C:\\a;C:\\b  \r\n\r\n";
    assert_eq!(reg_query_value(out), Some("C:\\a;C:\\b".to_string()));
    let out2 = "HKEY_CURRENT_USER\\Environment\n    FOO    REG_SZ    bar\n";
    assert_eq!(reg_query_value(out2), Some("bar".to_string()));
    assert_eq!(reg_query_value("nothing here\n"), None);
}

#[test]
fn root_prefers_non_blank_env() {
    assert_eq!(root_from(Some("D:\\last"), Some("C:\\Users\\me")), "D:\\last");
    assert_eq!(root_from(Some("  "), Some("C:\\Users\\me")), "C:\\Users\\me\\last");
    assert_eq!(root_from(None, None), ".\\last");
}

#[test]
fn text_helpers() {
    assert_eq!(lower_exec("MiXeD-Ä"), "mixed-Ä");
    assert_eq!(trim_exec("\t a b \n"), "a b");
    assert_eq!(split_exec("a;b;;c", ';'), vec!["a", "b", "", "c"]);
    assert_eq!(split_exec("", ';'), vec![""]);
    let parts = vec!["x".to_string(), "y".to_string()];
    assert_eq!(join_text(&parts, ", "), "x, y");
    assert_eq!(decimal_exec(0), "0");
    assert_eq!(decimal_exec(1203), "1203");
}
