use last::error::LastError;
use last::extract::ExtractorRegistry;
use last::install::{
    check_requested_version, dependency_name, dirs_to_unlink, download_action, new_install_state, parse_package_spec,
    path_entries_under, recorded_architecture, removal_steps, resolve_architecture, sort_installed, uninstall_steps,
    update_architecture, update_query, wanted_architecture, DownloadAction, InstallLayout, InstallState,
    InstalledApp, RemovalStep, UninstallStep,
};
use last::manifest::{ArchManifest, Architecture, Manifest, OneOrMany, ScriptField, ScriptSource};

fn s(x: &str) -> String {
    x.to_string()
}

fn manifest() -> Manifest {
    let mut m = Manifest::default();
    m.name = s("tool");
    m.version = s("2.0");
    let mut x86 = ArchManifest::empty();
    x86.url = Some(OneOrMany::One(s("https://h/x86.zip")));
    m.architecture = Some(vec![(s("32bit"), x86)]);
    m.persist = Some(OneOrMany::One(s("data")));
    m.env_add_path = Some(OneOrMany::One(s("bin")));
    m.env_set = Some(vec![(s("TOOL_HOME"), s("$dir"))]);
    m
}

#[test]
fn package_specs() {
    assert_eq!(parse_package_spec("git"), (s("git"), None));
    assert_eq!(parse_package_spec("git@2.45"), (s("git"), Some(s("2.45"))));
    assert_eq!(parse_package_spec("main/git@2.45"), (s("main/git"), Some(s("2.45"))));
    assert_eq!(parse_package_spec("git@"), (s("git@"), None));
    assert_eq!(parse_package_spec("a@b@c"), (s("a"), Some(s("b@c"))));
}

#[test]
fn requested_version_must_match() {
    assert!(check_requested_version("git", "main", "2.45", None).is_ok());
    assert!(check_requested_version("git", "main", "2.45", Some("2.45")).is_ok());
    match check_requested_version("git", "main", "2.45", Some("2.0")) {
        Err(LastError::VersionNotAvailable(q, n, b, v)) => {
            assert_eq!((q, n, b, v), (s("2.0"), s("git"), s("main"), s("2.45")));
        }
        _ => panic!("version not available"),
    }
}

#[test]
fn dependency_names() {
    assert_eq!(dependency_name("main/7zip"), "7zip");
    assert_eq!(dependency_name("7zip"), "7zip");
}

#[test]
fn architecture_choice() {
    let configured = vec![s("32bit")];
    assert_eq!(wanted_architecture(Some(Architecture::Arm64), &configured, Architecture::X64).unwrap(), Architecture::Arm64);
    assert_eq!(wanted_architecture(None, &configured, Architecture::X64).unwrap(), Architecture::X86);
    assert_eq!(wanted_architecture(None, &vec![], Architecture::Arm64).unwrap(), Architecture::Arm64);
    assert!(wanted_architecture(None, &vec![s("ia64")], Architecture::X64).is_err());
    let m = manifest();
    assert_eq!(resolve_architecture(&m, None, &configured, Architecture::X64).unwrap(), Architecture::X86);
    match resolve_architecture(&m, Some(Architecture::X64), &configured, Architecture::X64) {
        Err(LastError::ArchitectureNotSupported(n, a, avail)) => {
            assert_eq!((n, a, avail), (s("tool"), s("64bit"), s("32bit")));
        }
        _ => panic!("not supported"),
    }
}

#[test]
fn recorded_architectures() {
    assert_eq!(recorded_architecture("arm64", Architecture::X64), Architecture::Arm64);
    assert_eq!(recorded_architecture("", Architecture::X86), Architecture::X86);
    assert_eq!(update_architecture(Some(Architecture::X64), "32bit", Architecture::Arm64), Architecture::X64);
    assert_eq!(update_architecture(None, "32bit", Architecture::Arm64), Architecture::X86);
    assert_eq!(update_query("main", "git"), "main/git");
}

#[test]
fn layout() {
    let l = InstallLayout::new("C:\\last");
    assert_eq!(l.apps_dir(), "C:\\last\\apps");
    assert_eq!(l.app_dir("git"), "C:\\last\\apps\\git");
    assert_eq!(l.current_dir("git"), "C:\\last\\apps\\git\\current");
    assert_eq!(l.version_dir("git", "2.45"), "C:\\last\\apps\\git\\2.45");
    assert_eq!(l.meta_path("git", "2.45"), "C:\\last\\apps\\git\\2.45.meta.json");
    assert_eq!(l.cache_dir(), "C:\\last\\cache");
    let c = l.script_context("git", "2.45", "D:\\d", "P:\\p", Architecture::Arm64);
    assert_eq!(c.architecture, "arm64");
    assert_eq!(c.last_root, "C:\\last");
    assert!(!c.global);
}

#[test]
fn state_of_a_new_install() {
    let m = manifest();
    let r = m.resolved(Architecture::X86).unwrap();
    let st = new_install_state("main", &m, Architecture::X86, &r);
    assert_eq!(st.bucket, "main");
    assert_eq!(st.version, "2.0");
    assert_eq!(st.architecture, "32bit");
    assert!(st.shims.is_empty());
    assert_eq!(st.persist, vec![s("data")]);
    assert_eq!(st.env_set, vec![(s("TOOL_HOME"), s("$dir"))]);
    assert_eq!(st.env_add_path, vec![s("bin")]);
}

#[test]
fn how_downloads_are_placed() {
    let reg = ExtractorRegistry::new();
    match download_action(&reg, "C:\\v", 3, "Tool.ZIP", Some("inner"), Some("sub")).unwrap() {
        DownloadAction::Extract { temp_dir, source_dir, dest_dir, create_dest } => {
            assert_eq!(temp_dir, "C:\\v\\.extract-3");
            assert_eq!(source_dir, "C:\\v\\.extract-3\\inner");
            assert_eq!(dest_dir, "C:\\v\\sub");
            assert!(create_dest);
        }
        _ => panic!("archive"),
    }
    match download_action(&reg, "C:\\v", 0, "tool.tar.gz", None, None).unwrap() {
        DownloadAction::Extract { source_dir, dest_dir, create_dest, .. } => {
            assert_eq!(source_dir, "C:\\v\\.extract-0");
            assert_eq!(dest_dir, "C:\\v");
            assert!(!create_dest);
        }
        _ => panic!("archive"),
    }
    match download_action(&reg, "C:\\v", 0, "Setup.EXE", None, None).unwrap() {
        DownloadAction::CopyExecutable { dest } => assert_eq!(dest, "C:\\v\\Setup.EXE"),
        _ => panic!("portable executable"),
    }
    match download_action(&reg, "C:\\v", 0, "setup.msi", None, None) {
        Err(LastError::UnsupportedArchiveFormat(f)) => assert_eq!(f, "setup.msi"),
        _ => panic!("unsupported"),
    }
}

#[test]
fn removal_paths() {
    assert_eq!(path_entries_under("C:\\a\\current", &vec![s("bin"), s("x\\y")]), vec![s("C:\\a\\current\\bin"), s("C:\\a\\current\\x\\y")]);
    let entries = vec![(s("1.0"), true), (s("current"), true), (s("1.0.meta.json"), false), (s("2.0"), true)];
    assert_eq!(dirs_to_unlink("C:\\a", &entries), vec![s("C:\\a\\1.0"), s("C:\\a\\2.0")]);
}

#[test]
fn uninstall_order() {
    let mut m = manifest();
    m.pre_uninstall = Some(ScriptField::Inline(OneOrMany::One(s("log(\"pre\");"))));
    m.post_uninstall = Some(ScriptField::File { script_file: s("post.rhai") });
    let r = m.resolved(Architecture::X86).unwrap();
    let mut st = new_install_state("main", &m, Architecture::X86, &r);
    st.shims = vec![s("tool")];
    let steps = uninstall_steps(&st, &r, "C:\\a\\current", "C:\\bucket");
    assert_eq!(steps.len(), 5);
    match &steps[0] {
        UninstallStep::RunScript(ScriptSource::Text(t)) => assert_eq!(t, "log(\"pre\");"),
        _ => panic!("pre_uninstall first"),
    }
    match &steps[1] {
        UninstallStep::RemoveShim(n) => assert_eq!(n, "tool"),
        _ => panic!("shims next"),
    }
    match &steps[2] {
        UninstallStep::UnsetEnv(n) => assert_eq!(n, "TOOL_HOME"),
        _ => panic!("variables next"),
    }
    match &steps[3] {
        UninstallStep::RemovePathEntry(p) => assert_eq!(p, "C:\\a\\current\\bin"),
        _ => panic!("PATH entries next"),
    }
    match &steps[4] {
        UninstallStep::RunScript(ScriptSource::File(p)) => assert_eq!(p, "C:\\bucket\\post.rhai"),
        _ => panic!("post_uninstall last"),
    }
    let plain = uninstall_steps(&InstallState::default(), &r, "c", "b");
    assert_eq!(plain.len(), 2);
}

#[test]
fn purge_only_when_asked() {
    let kept = removal_steps("C:\\a", "C:\\p", false);
    assert_eq!(kept.len(), 1);
    assert!(matches!(&kept[0], RemovalStep::RemoveAppDir(d) if d == "C:\\a"));
    let purged = removal_steps("C:\\a", "C:\\p", true);
    assert!(matches!(&purged[1], RemovalStep::PurgePersist(d) if d == "C:\\p"));
}

#[test]
fn installed_apps_sorted_by_name() {
    let app = |n: &str| InstalledApp { name: s(n), version: s("1"), bucket: s("b"), architecture: s("64bit") };
    let sorted = sort_installed(vec![app("zip"), app("git"), app("Go"), app("git")]);
    let names: Vec<String> = sorted.into_iter().map(|a| a.name).collect();
    assert_eq!(names, vec![s("Go"), s("git"), s("git"), s("zip")]);
}

#[test]
fn installed_apps_sort_keeps_equal_names_in_order() {
    let app = |n: &str, v: &str| InstalledApp { name: s(n), version: s(v), bucket: s("b"), architecture: s("64bit") };
    let sorted = sort_installed(vec![app("b", "1"), app("a", "1"), app("b", "2")]);
    let pairs: Vec<(String, String)> = sorted.into_iter().map(|a| (a.name, a.version)).collect();
    assert_eq!(pairs, vec![(s("a"), s("1")), (s("b"), s("1")), (s("b"), s("2"))]);
}
