//! Console output: the flags that decide what is printed, and the form of
//! each kind of message. Printing itself is left to the caller.

use vstd::prelude::*;

verus! {

/// The console settings of a run.
#[derive(Clone, Copy)]
pub struct Ui {
    verbose: bool,
    dry_run: bool,
}

impl Ui {
    pub closed spec fn verbose_flag(&self) -> bool {
        self.verbose
    }

    pub closed spec fn dry_run_flag(&self) -> bool {
        self.dry_run
    }

    pub fn new(verbose: bool, dry_run: bool) -> (r: Ui)
        ensures
            r.verbose_flag() == verbose,
            r.dry_run_flag() == dry_run,
    {
        Ui { verbose, dry_run }
    }

    /// Whether debug messages are printed.
    pub fn is_verbose(&self) -> (r: bool)
        ensures
            r == self.verbose_flag(),
    {
        self.verbose
    }

    /// Whether state-changing steps are only announced, not performed.
    pub fn is_dry_run(&self) -> (r: bool)
        ensures
            r == self.dry_run_flag(),
    {
        self.dry_run
    }

    /// The line printed for a debug message: none unless verbose.
    pub fn debug_line(&self, msg: &str) -> (r: Option<String>)
        ensures
            self.verbose_flag() ==> (r matches Some(l) && l@ == "\u{1b}[90m[debug]\u{1b}[0m "@ + msg@),
            !self.verbose_flag() ==> r is None,
    {
        if self.verbose {
            let mut l = String::from_str("\u{1b}[90m[debug]\u{1b}[0m ");
            l.append(msg);
            Some(l)
        } else {
            None
        }
    }

    /// The line printed for a step: marked `[dry-run]` in a dry run.
    pub fn step_line(&self, msg: &str) -> (r: String)
        ensures
            self.dry_run_flag() ==> r@ == "\u{1b}[36m[dry-run]\u{1b}[0m "@ + msg@,
            !self.dry_run_flag() ==> r@ == msg@,
    {
        if self.dry_run {
            let mut l = String::from_str("\u{1b}[36m[dry-run]\u{1b}[0m ");
            l.append(msg);
            l
        } else {
            String::from_str(msg)
        }
    }
}

/// The line printed (to standard error) for a warning.
pub fn warn_line(msg: &str) -> (r: String)
    ensures
        r@ == "\u{1b}[33m[warn]\u{1b}[0m "@ + msg@,
{
    let mut l = String::from_str("\u{1b}[33m[warn]\u{1b}[0m ");
    l.append(msg);
    l
}

/// The line printed (to standard error) for an error.
pub fn error_line(msg: &str) -> (r: String)
    ensures
        r@ == "\u{1b}[31m[error]\u{1b}[0m "@ + msg@,
{
    let mut l = String::from_str("\u{1b}[31m[error]\u{1b}[0m ");
    l.append(msg);
    l
}

/// The line printed for a success message.
pub fn success_line(msg: &str) -> (r: String)
    ensures
        r@ == "\u{1b}[32m"@ + msg@ + "\u{1b}[0m"@,
{
    let mut l = String::from_str("\u{1b}[32m");
    l.append(msg);
    l.append("\u{1b}[0m");
    l
}

impl Default for Ui {
    fn default() -> (r: Ui)
        ensures
            !r.verbose_flag(),
            !r.dry_run_flag(),
    {
        Ui::new(false, false)
    }
}

} // verus!
