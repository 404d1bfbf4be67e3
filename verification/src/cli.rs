//! The command line: the commands and options of `last`, and the
//! decisions and output lines of the commands that are made from plain
//! values. Parsing the arguments and dispatching is left to the program.

use vstd::prelude::*;

use crate::config::{BucketSource, BucketSourceV};
use crate::error::{LastError, LastErrorV};
use crate::install::InstalledApp;
use crate::manifest::{arch_key, Architecture};
use crate::path;
use crate::text;

verus! {

/// The command line of `last`.
pub struct Cli {
    pub command: Command,
    /// Show what would be done without changing anything.
    pub dry_run: bool,
    /// Print debug information.
    pub verbose: bool,
    /// The LAST root, overriding the `LAST` environment variable.
    pub root: Option<String>,
    /// An alternative `config.json`.
    pub config: Option<String>,
    /// Target architectures: the first overrides the configured one for
    /// `install` and `update`; `mirror` uses all of them.
    pub arch: Vec<String>,
}

/// A command of `last`.
#[allow(inconsistent_fields)]
pub enum Command {
    Install { package: String },
    Update { package: Option<String> },
    Remove { package: String, purge: bool },
    Search { query: String },
    Info { package: String },
    List,
    Export {
        package: String,
        dest: String,
        include_persist: bool,
        overwrite: bool,
        backup_suffix: Option<String>,
    },
    Mirror {
        package: String,
        source: String,
        vendor: Option<String>,
        app_name: Option<String>,
        list_only: bool,
        skip_download: bool,
    },
    Bucket(BucketCommand),
    Config(ConfigCommand),
    Checkup,
    Migrate { from_scoop: bool, scoop_root: Option<String> },
}

/// A `last bucket` command.
pub enum BucketCommand {
    Add { name: String, source: String },
    Rm { name: String },
    List,
    Update,
}

/// A `last config` command.
pub enum ConfigCommand {
    SetValue { key: String, value: String },
    Get { key: String },
    List,
}

/// The architectures named on the command line, in order; refused at the
/// first text that names none.
pub open spec fn named_archs(keys: Seq<Seq<char>>) -> Result<Seq<Architecture>, LastErrorV>
    decreases keys.len(),
{
    if keys.len() == 0 {
        Ok(Seq::empty())
    } else {
        match named_archs(keys.drop_last()) {
            Err(e) => Err(e),
            Ok(rest) => if exists|a: Architecture| arch_key(a) == keys.last() {
                Ok(rest.push(choose|a: Architecture| arch_key(a) == keys.last()))
            } else {
                Err(LastErrorV::UnknownArchitecture(keys.last()))
            },
        }
    }
}

/// The architectures given with `--arch`.
pub fn parse_architectures(arch: &Vec<String>) -> (r: Result<Vec<Architecture>, LastError>)
    ensures
        match r {
            Ok(v) => named_archs(arch.deep_view()) == Ok::<Seq<Architecture>, LastErrorV>(v@),
            Err(e) => named_archs(arch.deep_view()) == Err::<Seq<Architecture>, LastErrorV>(e.deep_view()),
        },
{
    let ghost keys = arch.deep_view();
    let mut out: Vec<Architecture> = Vec::new();
    let mut i: usize = 0;
    while i < arch.len()
        invariant
            i <= arch@.len(),
            keys == arch.deep_view(),
            named_archs(keys.subrange(0, i as int)) == Ok::<Seq<Architecture>, LastErrorV>(out@),
        decreases arch@.len() - i,
    {
        proof {
            assert(keys.subrange(0, i + 1).drop_last() == keys.subrange(0, i as int));
            assert(keys.subrange(0, i + 1).last() == arch@[i as int]@);
        }
        match Architecture::parse(arch[i].as_str()) {
            Ok(a) => {
                proof {
                    let c = choose|b: Architecture| arch_key(b) == arch@[i as int]@;
                    crate::manifest::lemma_arch_key_injective(a, c);
                }
                out.push(a);
            },
            Err(e) => {
                proof {
                    lemma_named_archs_err(keys, i as int, e.deep_view());
                }
                return Err(e);
            },
        }
        i = i + 1;
    }
    proof {
        assert(keys.subrange(0, keys.len() as int) == keys);
    }
    Ok(out)
}

proof fn lemma_named_archs_err(keys: Seq<Seq<char>>, i: int, e: LastErrorV)
    requires
        0 <= i < keys.len(),
        named_archs(keys.subrange(0, i + 1)) == Err::<Seq<Architecture>, LastErrorV>(e),
    ensures
        named_archs(keys) == Err::<Seq<Architecture>, LastErrorV>(e),
    decreases keys.len() - i,
{
    if i + 1 < keys.len() {
        assert(keys.subrange(0, i + 2).drop_last() == keys.subrange(0, i + 1));
        lemma_named_archs_err(keys, i + 1, e);
    } else {
        assert(keys.subrange(0, i + 1) == keys);
    }
}

/// The `--arch` override: the first architecture given, if any; refused
/// when it names none.
pub fn arch_override(arch: &Vec<String>) -> (r: Result<Option<Architecture>, LastError>)
    ensures
        arch@.len() == 0 ==> r == Ok::<Option<Architecture>, LastError>(None),
        arch@.len() > 0 ==> match r {
            Ok(Some(a)) => arch_key(a) == arch@[0]@,
            Ok(None) => false,
            Err(e) => (forall|a: Architecture| arch_key(a) != arch@[0]@) && e.deep_view()
                == LastErrorV::UnknownArchitecture(arch@[0]@),
        },
{
    if arch.len() == 0 {
        return Ok(None);
    }
    match Architecture::parse(arch[0].as_str()) {
        Ok(a) => Ok(Some(a)),
        Err(e) => Err(e),
    }
}

/// Which app `last update` updates: none named (all of them) when the
/// package is omitted or `*`.
pub fn update_target(package: Option<&str>) -> (r: Option<String>)
    ensures
        match package {
            Some(p) => if p@ == "*"@ {
                r is None
            } else {
                r matches Some(s) && s@ == p@
            },
            None => r is None,
        },
{
    match package {
        Some(p) => if text::str_eq(p, "*") {
            None
        } else {
            Some(String::from_str(p))
        },
        None => None,
    }
}

/// The configuration file: the one given, else `config.json` in the root.
pub fn config_file(root: &str, given: Option<&str>) -> (r: String)
    ensures
        r@ == match given {
            Some(g) => g@,
            None => path::join(root@, "config.json"@),
        },
{
    match given {
        Some(g) => String::from_str(g),
        None => crate::config::config_path(root),
    }
}

/// The Scoop installation to migrate from: the one given, else `scoop`
/// under the home directory (or under `.` without one).
pub fn scoop_root(given: Option<&str>, home: Option<&str>) -> (r: String)
    ensures
        r@ == match given {
            Some(g) => g@,
            None => path::join(
                match home {
                    Some(h) => h@,
                    None => seq!['.'],
                },
                "scoop"@,
            ),
        },
{
    match given {
        Some(g) => String::from_str(g),
        None => {
            proof {
                reveal_strlit(".");
            }
            match home {
                Some(h) => path::join_exec(h, "scoop"),
                None => path::join_exec(".", "scoop"),
            }
        },
    }
}

/// How `last list` shows an installed app: `<name> <version> (<bucket>,
/// <architecture>)`.
pub fn installed_line(app: &InstalledApp) -> (r: String)
    ensures
        r@ == app.name@ + " "@ + app.version@ + " ("@ + app.bucket@ + ", "@ + app.architecture@ + ")"@,
{
    let mut l = app.name.clone();
    l.append(" ");
    l.append(app.version.as_str());
    l.append(" (");
    l.append(app.bucket.as_str());
    l.append(", ");
    l.append(app.architecture.as_str());
    l.append(")");
    l
}

/// How `last search` shows a found package: `<bucket>/<name> <version> -
/// <description>` (an empty description when there is none).
pub fn search_line(bucket: &str, name: &str, version: &str, description: Option<&str>) -> (r: String)
    ensures
        r@ == bucket@ + "/"@ + name@ + " "@ + version@ + " - "@ + match description {
            Some(d) => d@,
            None => Seq::empty(),
        },
{
    let mut l = String::from_str(bucket);
    l.append("/");
    l.append(name);
    l.append(" ");
    l.append(version);
    l.append(" - ");
    match description {
        Some(d) => l.append(d),
        None => {},
    }
    proof {
        assert(l@ =~= bucket@ + "/"@ + name@ + " "@ + version@ + " - "@ + match description {
            Some(d) => d@,
            None => Seq::empty(),
        });
    }
    l
}

/// How `last bucket list` shows a bucket: `<name>  local  <path>` or
/// `<name>  zip    <url>`.
pub fn bucket_line(name: &str, source: &BucketSource) -> (r: String)
    ensures
        r@ == match source.deep_view() {
            BucketSourceV::Local(p) => name@ + "  local  "@ + p,
            BucketSourceV::Zip(u) => name@ + "  zip    "@ + u,
        },
{
    let mut l = String::from_str(name);
    match source {
        BucketSource::Local { path } => {
            l.append("  local  ");
            l.append(path.as_str());
        },
        BucketSource::Zip { url } => {
            l.append("  zip    ");
            l.append(url.as_str());
        },
    }
    l
}

/// The directories `last checkup` expects under the root.
pub fn checkup_dirs() -> (r: Vec<&'static str>)
    ensures
        r@.map_values(|s: &str| s@) == seq!["apps"@, "buckets"@, "cache"@, "persist"@, "shims"@, "log"@],
{
    let r: Vec<&'static str> = vec!["apps", "buckets", "cache", "persist", "shims", "log"];
    proof {
        assert(r@.map_values(|s: &str| s@) =~= seq!["apps"@, "buckets"@, "cache"@, "persist"@, "shims"@, "log"@]);
    }
    r
}

/// `last migrate` only migrates from Scoop; refused otherwise.
pub fn check_migrate_source(from_scoop: bool) -> (r: Result<(), LastError>)
    ensures
        from_scoop <==> r is Ok,
        r matches Err(e) ==> e.deep_view() == LastErrorV::MigrateSourceRequired,
{
    if from_scoop {
        Ok(())
    } else {
        Err(LastError::MigrateSourceRequired)
    }
}

/// The Scoop installation to migrate from: the one given, else `scoop`
/// under the home directory (or under `.` without one).
pub fn scoop_root_or_home(given: Option<&str>) -> (r: String)
    ensures
        given matches Some(g) ==> r@ == g@,
        given is None ==> exists|h: Option<Seq<char>>| r@ == path::join(#[trigger] path::home_or_dot(h), "scoop"@),
{
    match given {
        Some(g) => String::from_str(g),
        None => {
            let home = path::home_dir();
            let h: Option<&str> = match &home {
                Some(x) => Some(x.as_str()),
                None => None,
            };
            let r = scoop_root(None, h);
            assert(r@ == path::join(path::home_or_dot(home.deep_view()), "scoop"@));
            r
        },
    }
}

} // verus!
