use last::config::MirrorConfig;
use last::error::LastError;
use last::json::JsonValue;
use last::manifest::{ArchManifest, Architecture, BinEntry, Manifest, OneOrMany};
use last::mirror::{
    check_mirror_config, detect_vendor, mirror_manifest_path, plan_mirror, requested_architectures,
    rewrite_manifest, select_architectures, share_relative_path, to_one_or_many, mirror_course, MirrorCourse, MirrorOptions,
    MirrorSource,
};

fn s(x: &str) -> String {
    x.to_string()
}

fn manifest() -> Manifest {
    let mut m = Manifest::default();
    m.name = s("vscodium");
    m.version = s("1.90");
    m.homepage = Some(s("https://www.vscodium.com/docs"));
    let mut x64 = ArchManifest::empty();
    x64.url = Some(OneOrMany::One(s("https://github.com/dl/VSCodium-x64.zip")));
    x64.hash = Some(OneOrMany::One(s("aaaa")));
    x64.bin = Some(OneOrMany::One(BinEntry::Simple(s("codium.exe"))));
    let mut arm = ArchManifest::empty();
    arm.url = Some(OneOrMany::Many(vec![s("https://github.com/dl/a.zip"), s("https://github.com/dl/b.exe#/setup.exe")]));
    m.architecture = Some(vec![(s("64bit"), x64), (s("arm64"), arm)]);
    m.extra = vec![(s("autoupdate"), JsonValue::Null), (s("notes2"), JsonValue::Bool(true)), (s("checkver"), JsonValue::Null)];
    m
}

fn config() -> MirrorConfig {
    MirrorConfig {
        binary_share: s("\\\\srv\\sw"),
        architectures: vec![s("64bit"), s("bogus"), s("arm64")],
        download_proxy: s(""),
        bucket_path: s("C:\\repo"),
    }
}

fn options(archs: Vec<Architecture>) -> MirrorOptions {
    MirrorOptions {
        source: MirrorSource::Extras,
        architectures: archs,
        vendor: None,
        app_name: None,
        list_only: false,
        skip_download: false,
    }
}

#[test]
fn sources() {
    assert_eq!(MirrorSource::parse("MAIN").unwrap(), MirrorSource::Main);
    assert_eq!(MirrorSource::parse("extras").unwrap(), MirrorSource::Extras);
    match MirrorSource::parse("Versions") {
        Err(LastError::UnknownMirrorSource(x)) => assert_eq!(x, "versions"),
        _ => panic!("unknown source"),
    }
    assert_eq!(
        MirrorSource::Main.manifest_url("git"),
        "https://raw.githubusercontent.com/ScoopInstaller/Main/master/bucket/git.json"
    );
}

#[test]
fn share_layout() {
    assert_eq!(
        share_relative_path("Microsoft", "VSCode", "1.2", Architecture::X64, "a.zip"),
        "Windows\\Microsoft\\VSCode 1.2\\x64\\a.zip"
    );
    assert_eq!(
        share_relative_path("V", "A", "3", Architecture::X86, "b.exe"),
        "Windows\\V\\A 3\\x86\\b.exe"
    );
    assert_eq!(
        share_relative_path("V", "A", "3", Architecture::Arm64, "c.7z"),
        "Windows\\V\\A 3\\arm64\\c.7z"
    );
}

#[test]
fn vendor_from_homepage() {
    assert_eq!(detect_vendor(Some("https://www.vscodium.com/docs")), "Vscodium");
    assert_eq!(detect_vendor(Some("https://github.com/user/repo")), "Github");
    assert_eq!(detect_vendor(Some("http://localhost:8080/x")), "Localhost:8080");
    assert_eq!(detect_vendor(Some("example")), "Example");
    assert_eq!(detect_vendor(Some("https://")), "Unknown");
    assert_eq!(detect_vendor(None), "Unknown");
}

#[test]
fn one_or_many_writing() {
    match to_one_or_many(vec![s("a")]) {
        OneOrMany::One(x) => assert_eq!(x, "a"),
        _ => panic!("single value"),
    }
    match to_one_or_many(vec![s("a"), s("b")]) {
        OneOrMany::Many(v) => assert_eq!(v, vec![s("a"), s("b")]),
        _ => panic!("list"),
    }
    match to_one_or_many(vec![]) {
        OneOrMany::Many(v) => assert!(v.is_empty()),
        _ => panic!("empty list"),
    }
}

#[test]
fn requested_falls_back_to_configured() {
    let configured = vec![s("64bit"), s("bogus"), s("arm64")];
    assert_eq!(requested_architectures(&vec![], &configured), vec![Architecture::X64, Architecture::Arm64]);
    assert_eq!(requested_architectures(&vec![Architecture::X86], &configured), vec![Architecture::X86]);
}

#[test]
fn selection_keeps_provided_architectures() {
    let m = manifest();
    let sel = select_architectures(&m, "vscodium", &vec![Architecture::X86, Architecture::Arm64]).unwrap();
    assert_eq!(sel, vec![Architecture::Arm64]);
    match select_architectures(&m, "vscodium", &vec![Architecture::X86]) {
        Err(LastError::NoRequestedArchitecture(app, avail)) => {
            assert_eq!(app, "vscodium");
            assert_eq!(avail, "64bit, arm64");
        }
        _ => panic!("nothing to mirror"),
    }
}

#[test]
fn plan_targets_the_share() {
    let m = manifest();
    let plan = plan_mirror(&m, "vscodium", &options(vec![]), &config()).unwrap();
    assert_eq!(plan.vendor, "Vscodium");
    assert_eq!(plan.app_name, "vscodium");
    assert_eq!(plan.archs, vec![Architecture::X64, Architecture::Arm64]);
    assert_eq!(plan.blocks.len(), 2);
    assert_eq!(plan.blocks[0].items[0].target, "\\\\srv\\sw\\Windows\\Vscodium\\vscodium 1.90\\x64\\VSCodium-x64.zip");
    assert_eq!(plan.blocks[0].hashes, vec![s("aaaa")]);
    assert_eq!(plan.blocks[1].items.len(), 2);
    assert_eq!(plan.blocks[1].items[1].target, "\\\\srv\\sw\\Windows\\Vscodium\\vscodium 1.90\\arm64\\setup.exe");
    assert!(plan.blocks[1].hashes.is_empty());
}

#[test]
fn plan_uses_overrides() {
    let m = manifest();
    let mut o = options(vec![Architecture::X64]);
    o.vendor = Some(s("VSCodium Team"));
    o.app_name = Some(s("Codium"));
    let plan = plan_mirror(&m, "vscodium", &o, &config()).unwrap();
    assert_eq!(plan.blocks[0].items[0].target, "\\\\srv\\sw\\Windows\\VSCodium Team\\Codium 1.90\\x64\\VSCodium-x64.zip");
}

#[test]
fn rewritten_manifest_installs_from_share() {
    let mut m = manifest();
    let plan = plan_mirror(&m, "vscodium", &options(vec![Architecture::Arm64]), &config()).unwrap();
    rewrite_manifest(&mut m, &plan.blocks);
    assert!(m.url.is_none());
    assert!(m.hash.is_none());
    let keys: Vec<String> = m.extra.iter().map(|(k, _)| k.clone()).collect();
    assert_eq!(keys, vec![s("notes2")]);
    assert_eq!(m.available_architectures(), vec!["arm64"]);
    let r = m.resolved(Architecture::Arm64).unwrap();
    assert_eq!(r.downloads[0].download.url, "\\\\srv\\sw\\Windows\\Vscodium\\vscodium 1.90\\arm64\\a.zip");
    assert!(r.downloads[0].hash.is_none());
    assert!(m.resolved(Architecture::X64).is_err());
}

#[test]
fn rewrite_keeps_block_fields() {
    let mut m = manifest();
    let plan = plan_mirror(&m, "vscodium", &options(vec![Architecture::X64]), &config()).unwrap();
    rewrite_manifest(&mut m, &plan.blocks);
    let r = m.resolved(Architecture::X64).unwrap();
    assert_eq!(r.bin.len(), 1);
    assert_eq!(r.downloads[0].hash, Some(s("aaaa")));
    match &m.architecture.as_ref().unwrap()[0].1.url {
        Some(OneOrMany::One(u)) => assert_eq!(u, "\\\\srv\\sw\\Windows\\Vscodium\\vscodium 1.90\\x64\\VSCodium-x64.zip"),
        _ => panic!("one URL"),
    }
}

#[test]
fn mirror_configuration_is_required() {
    assert!(check_mirror_config(&config()).is_ok());
    let mut c = config();
    c.bucket_path = s("");
    match check_mirror_config(&c) {
        Err(LastError::MirrorNotConfigured) => {}
        _ => panic!("not configured"),
    }
    assert_eq!(mirror_manifest_path("C:\\repo", "git"), "C:\\repo\\bucket\\git.json");
}

#[test]
fn mirror_courses() {
    let mut o = options(vec![]);
    assert!(mirror_course(&o, &config()).unwrap() == MirrorCourse::CopyAndRewrite);
    o.skip_download = true;
    assert!(mirror_course(&o, &config()).unwrap() == MirrorCourse::RewriteOnly);
    let mut unconfigured = config();
    unconfigured.binary_share = s("");
    assert!(matches!(mirror_course(&o, &unconfigured), Err(LastError::MirrorNotConfigured)));
    o.list_only = true;
    assert!(mirror_course(&o, &unconfigured).unwrap() == MirrorCourse::ListOnly);
}

#[test]
fn vendor_capitalized() {
    assert_eq!(detect_vendor(Some("https://www.example.org/x")), "Example");
    assert_eq!(detect_vendor(Some("https://éclair.fr")), "Éclair");
    assert_eq!(detect_vendor(None), "Unknown");
}
