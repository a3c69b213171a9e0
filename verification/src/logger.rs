//! The log of the program: what each entry says, and the file it goes to.
use vstd::prelude::*;

verus! {

/// Where the log is written.
pub struct Logger {
    log_file_name: String,
}

/// A log entry: `emitting: msg info`.
pub open spec fn entry_text(emitting: Seq<char>, msg: Seq<char>, info: Seq<char>) -> Seq<char> {
    emitting + ": "@ + msg + " "@ + info
}

/// A log entry with an extra note: `emitting: msg info --- extra`.
pub open spec fn entry_extra_text(
    emitting: Seq<char>,
    msg: Seq<char>,
    info: Seq<char>,
    extra: Seq<char>,
) -> Seq<char> {
    entry_text(emitting, msg, info) + " --- "@ + extra
}

impl Logger {
    /// The name of the log file.
    pub closed spec fn file_name(&self) -> Seq<char> {
        self.log_file_name@
    }

    /// A logger that writes to the file `log_file_name`.
    pub fn new(log_file_name: String) -> (l: Logger)
        ensures
            l.file_name() == log_file_name@,
    {
        Logger { log_file_name }
    }

    /// The name of the log file.
    pub fn log_file_name(&self) -> (name: &String)
        ensures
            name@ == self.file_name(),
    {
        &self.log_file_name
    }

    /// The line that `log` writes for these arguments.
    pub fn entry(&self, emitting: &str, msg: &str, info: &str) -> (line: String)
        ensures
            line@ == entry_text(emitting@, msg@, info@),
    {
        let mut line = String::from_str(emitting);
        line.append(": ");
        line.append(msg);
        line.append(" ");
        line.append(info);
        line
    }

    /// The line that `log_extra_arg` writes for these arguments.
    pub fn entry_extra(&self, emitting: &str, msg: &str, info: &str, extra: &str) -> (line: String)
        ensures
            line@ == entry_extra_text(emitting@, msg@, info@, extra@),
    {
        let mut line = self.entry(emitting, msg, info);
        line.append(" --- ");
        line.append(extra);
        line
    }
}

} // verus!
