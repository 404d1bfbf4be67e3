use last::error::LastError;
use last::json::JsonValue;
use last::manifest::{
    ArchManifest, Architecture, BinEntry, DownloadUrl, Manifest, OneOrMany, ScriptField, ScriptSource,
};

fn s(x: &str) -> String {
    x.to_string()
}

fn base_manifest() -> Manifest {
    let mut m = Manifest::default();
    m.name = s("tool");
    m.version = s("1.2.3");
    m
}

#[test]
fn architecture_keys() {
    assert_eq!(Architecture::X64.key(), "64bit");
    assert_eq!(Architecture::X86.key(), "32bit");
    assert_eq!(Architecture::Arm64.key(), "arm64");
    assert_eq!(Architecture::parse("arm64").unwrap(), Architecture::Arm64);
    match Architecture::parse("ia64") {
        Err(LastError::UnknownArchitecture(a)) => assert_eq!(a, "ia64"),
        _ => panic!("expected an unknown architecture"),
    }
    for a in [Architecture::X64, Architecture::X86, Architecture::Arm64] {
        assert_eq!(Architecture::parse(a.key()).unwrap(), a);
    }
}

#[test]
fn host_architecture() {
    assert_eq!(Architecture::from_host("x86"), Architecture::X86);
    assert_eq!(Architecture::from_host("aarch64"), Architecture::Arm64);
    assert_eq!(Architecture::from_host("x86_64"), Architecture::X64);
    assert_eq!(Architecture::from_host("riscv64"), Architecture::X64);
}

#[test]
fn rename_trick() {
    let d = DownloadUrl::parse("https://host/file.exe#/renamed.7z");
    assert_eq!(d.url, "https://host/file.exe");
    assert_eq!(d.rename_to, Some(s("renamed.7z")));
    assert_eq!(d.file_name(), "renamed.7z");
    let plain = DownloadUrl::parse("https://host/dir/tool.zip");
    assert_eq!(plain.rename_to, None);
    assert_eq!(plain.file_name(), "tool.zip");
    let frag = DownloadUrl::parse("https://host/x.zip#section");
    assert_eq!(frag.url, "https://host/x.zip#section");
    assert_eq!(frag.rename_to, None);
    assert_eq!(DownloadUrl::parse("https://host/").file_name(), "download");
}

#[test]
fn bin_entries() {
    let simple = BinEntry::Simple(s("bin/tool.exe"));
    assert_eq!(simple.exe(), "bin/tool.exe");
    assert_eq!(simple.alias(), None);
    assert!(simple.extra_args().is_empty());
    let full = BinEntry::WithArgs(vec![s("real.exe"), s("alias"), s("--a"), s("--b")]);
    assert_eq!(full.exe(), "real.exe");
    assert_eq!(full.alias(), Some("alias"));
    assert_eq!(full.extra_args(), vec![s("--a"), s("--b")]);
}

#[test]
fn one_or_many_items() {
    assert_eq!(OneOrMany::One(s("a")).to_vec(), vec![s("a")]);
    assert_eq!(OneOrMany::Many(vec![s("a"), s("b")]).to_vec(), vec![s("a"), s("b")]);
}

#[test]
fn root_url_resolves_for_every_architecture() {
    let mut m = base_manifest();
    m.url = Some(OneOrMany::Many(vec![s("https://h/a.zip"), s("https://h/b.zip#/c.7z")]));
    m.hash = Some(OneOrMany::One(s("aa")));
    m.extract_dir = Some(OneOrMany::One(s("inner")));
    let r = m.resolved(Architecture::Arm64).unwrap();
    assert_eq!(r.downloads.len(), 2);
    assert_eq!(r.downloads[0].download.url, "https://h/a.zip");
    assert_eq!(r.downloads[0].hash, Some(s("aa")));
    assert_eq!(r.downloads[1].download.rename_to, Some(s("c.7z")));
    assert_eq!(r.downloads[1].hash, None);
    assert_eq!(r.extract_dir, Some(s("inner")));
    assert_eq!(m.available_architectures(), vec!["64bit", "32bit", "arm64"]);
}

#[test]
fn architecture_block_overrides_root() {
    let mut m = base_manifest();
    let mut x64 = ArchManifest::empty();
    x64.url = Some(OneOrMany::One(s("https://h/x64.zip")));
    x64.hash = Some(OneOrMany::One(s("11")));
    let mut x86 = ArchManifest::empty();
    x86.url = Some(OneOrMany::One(s("https://h/x86.zip")));
    m.architecture = Some(vec![(s("64bit"), x64), (s("32bit"), x86)]);
    m.bin = Some(OneOrMany::One(BinEntry::Simple(s("tool.exe"))));
    let r = m.resolved(Architecture::X64).unwrap();
    assert_eq!(r.downloads[0].download.url, "https://h/x64.zip");
    assert_eq!(r.downloads[0].hash, Some(s("11")));
    assert_eq!(r.bin.len(), 1);
    assert_eq!(m.available_architectures(), vec!["64bit", "32bit"]);
    match m.resolved(Architecture::Arm64) {
        Err(LastError::NoUrlForArchitecture(a)) => assert_eq!(a, "arm64"),
        _ => panic!("arm64 has no URL"),
    }
}

#[test]
fn validation() {
    let mut m = base_manifest();
    match m.validate() {
        Err(LastError::MissingSource(n)) => assert_eq!(n, "tool"),
        _ => panic!("no source"),
    }
    m.url = Some(OneOrMany::One(s("https://h/a.zip")));
    assert!(m.validate().is_ok());
    m.version = s("  ");
    match m.validate() {
        Err(LastError::MissingVersion(n)) => assert_eq!(n, "tool"),
        _ => panic!("no version"),
    }
}

#[test]
fn parsed_manifest_is_named_after_its_file() {
    let mut m = Manifest::default();
    m.version = s("2.0");
    m.url = Some(OneOrMany::One(s("https://h/a.zip")));
    let named = Manifest::from_parsed(m, "C:\\bucket\\vscodium.json").unwrap();
    assert_eq!(named.name, "vscodium");
    let bad = Manifest::from_parsed(Manifest::default(), "x\\empty.json");
    match bad {
        Err(LastError::MissingVersion(n)) => assert_eq!(n, "empty"),
        _ => panic!("no version"),
    }
}

#[test]
fn ignored_fields_in_order() {
    let mut m = base_manifest();
    m.extra = vec![(s("checkver"), JsonValue::Null), (s("autoupdate"), JsonValue::Null), (s("x"), JsonValue::Null)];
    assert_eq!(m.ignored_fields(), vec!["autoupdate", "checkver"]);
    assert!(base_manifest().ignored_fields().is_empty());
}

#[test]
fn persist_and_depends_lists() {
    let mut m = base_manifest();
    m.persist = Some(OneOrMany::Many(vec![s("config.json"), s("data")]));
    m.depends = Some(OneOrMany::One(s("main/7zip")));
    assert_eq!(m.persist_entries(), vec![s("config.json"), s("data")]);
    assert_eq!(m.depends(), vec![s("main/7zip")]);
    assert!(base_manifest().persist_entries().is_empty());
}

#[test]
fn script_fields_resolve() {
    let inline = ScriptField::Inline(OneOrMany::Many(vec![s("log(\"a\");"), s("log(\"b\");")]));
    match inline.resolve("C:\\b") {
        ScriptSource::Text(t) => assert_eq!(t, "log(\"a\");\nlog(\"b\");"),
        _ => panic!("inline"),
    }
    let file = ScriptField::File { script_file: s("scripts\\setup.rhai") };
    match file.resolve("C:\\b") {
        ScriptSource::File(p) => assert_eq!(p, "C:\\b\\scripts\\setup.rhai"),
        _ => panic!("file"),
    }
}
