//! The operation log, `log\last.log` under the LAST root: one line per
//! install, update, removal and other operation.

use vstd::prelude::*;

use crate::path;
use crate::text;

verus! {

/// The kind of operation being logged.
#[derive(Debug, Clone, Copy, PartialEq, Eq, Structural)]
pub enum Operation {
    Install,
    Update,
    Remove,
    Mirror,
    Export,
    Migrate,
}

/// The word logged for an operation.
pub open spec fn operation_word(op: Operation) -> Seq<char> {
    match op {
        Operation::Install => "install"@,
        Operation::Update => "update"@,
        Operation::Remove => "remove"@,
        Operation::Mirror => "mirror"@,
        Operation::Export => "export"@,
        Operation::Migrate => "migrate"@,
    }
}

impl Operation {
    /// The word logged for the operation.
    pub fn as_str(&self) -> (r: &'static str)
        ensures
            r@ == operation_word(*self),
    {
        match self {
            Operation::Install => "install",
            Operation::Update => "update",
            Operation::Remove => "remove",
            Operation::Mirror => "mirror",
            Operation::Export => "export",
            Operation::Migrate => "migrate",
        }
    }
}

/// The outcome of a logged operation.
#[derive(Debug, Clone, Copy, PartialEq, Eq, Structural)]
pub enum LogResult {
    Success,
    Failure,
}

/// The word logged for an outcome.
pub open spec fn result_word(r: LogResult) -> Seq<char> {
    match r {
        LogResult::Success => "success"@,
        LogResult::Failure => "failure"@,
    }
}

impl LogResult {
    /// The word logged for the outcome.
    pub fn as_str(&self) -> (r: &'static str)
        ensures
            r@ == result_word(*self),
    {
        match self {
            LogResult::Success => "success",
            LogResult::Failure => "failure",
        }
    }
}

/// One record of the log.
pub struct LogEntry {
    pub operation: Operation,
    pub package: String,
    pub version: String,
    pub hashes: Vec<String>,
    pub result: LogResult,
}

impl LogEntry {
    /// A successful operation with no hashes recorded.
    pub fn new(operation: Operation, package: &str, version: &str) -> (r: LogEntry)
        ensures
            r.operation == operation,
            r.package@ == package@,
            r.version@ == version@,
            r.hashes@.len() == 0,
            r.result == LogResult::Success,
    {
        LogEntry {
            operation,
            package: String::from_str(package),
            version: String::from_str(version),
            hashes: Vec::new(),
            result: LogResult::Success,
        }
    }

    /// The entry with `hash` recorded after the hashes it has.
    pub fn with_hash(entry: LogEntry, hash: &str) -> (r: LogEntry)
        ensures
            r.operation == entry.operation,
            r.package == entry.package,
            r.version == entry.version,
            r.hashes.deep_view() == entry.hashes.deep_view().push(hash@),
            r.result == entry.result,
    {
        let mut e = entry;
        let ghost before = e.hashes.deep_view();
        e.hashes.push(String::from_str(hash));
        proof {
            assert(e.hashes.deep_view() =~= before.push(hash@));
        }
        e
    }

    /// The entry with its outcome set.
    pub fn with_result(entry: LogEntry, result: LogResult) -> (r: LogEntry)
        ensures
            r.operation == entry.operation,
            r.package == entry.package,
            r.version == entry.version,
            r.hashes == entry.hashes,
            r.result == result,
    {
        let mut e = entry;
        e.result = result;
        e
    }
}

/// The text of a log line, `<timestamp> <operation> <package> <version>
/// hashes=<hashes> result=<result>` and a newline, where `<hashes>` is the
/// hashes joined with `,`, or `-` when there are none.
pub open spec fn log_line(timestamp: Seq<char>, e: LogEntry) -> Seq<char> {
    timestamp + " "@ + operation_word(e.operation) + " "@ + e.package@ + " "@ + e.version@ + " hashes="@ + (if e.hashes@.len()
        == 0 {
        "-"@
    } else {
        text::join(text::views(e.hashes@), ","@)
    }) + " result="@ + result_word(e.result) + "\n"@
}

/// Where the log is written.
pub struct OperationLogger {
    pub log_file: String,
}

impl OperationLogger {
    /// The logger of the LAST installation at `root`: `log\last.log`.
    pub fn new(root: &str) -> (r: OperationLogger)
        ensures
            r.log_file@ == path::join(path::join(root@, "log"@), "last.log"@),
    {
        let dir = path::join_exec(root, "log");
        OperationLogger { log_file: path::join_exec(dir.as_str(), "last.log") }
    }

    /// The line appended to the log for `entry` at the local time
    /// `timestamp`.
    pub fn line(&self, timestamp: &str, entry: &LogEntry) -> (r: String)
        ensures
            r@ == log_line(timestamp@, *entry),
    {
        let mut l = String::from_str(timestamp);
        l.append(" ");
        l.append(entry.operation.as_str());
        l.append(" ");
        l.append(entry.package.as_str());
        l.append(" ");
        l.append(entry.version.as_str());
        l.append(" hashes=");
        if entry.hashes.len() == 0 {
            l.append("-");
        } else {
            let h = text::join_exec(&entry.hashes, ",");
            l.append(h.as_str());
        }
        l.append(" result=");
        l.append(entry.result.as_str());
        l.append("\n");
        proof {
            assert(l@ =~= log_line(timestamp@, *entry));
        }
        l
    }

    /// The line appended to the log for `entry` now, stamped with the local
    /// time.
    pub fn line_now(&self, entry: &LogEntry) -> (r: String)
        ensures
            exists|t: Seq<char>| r@ == log_line(t, *entry),
    {
        proof {
            reveal_strlit("%Y-%m-%dT%H:%M:%S%:z");
        }
        let t = crate::clock::local_time("%Y-%m-%dT%H:%M:%S%:z");
        let r = self.line(t.as_str(), entry);
        assert(r@ == log_line(t@, *entry));
        r
    }
}

} // verus!
