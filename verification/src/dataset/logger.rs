//! Logging support: an entry buffer, a console logger's configuration and
//! a buffering logger's state. The sinks that do the writing live with the
//! embedding application; the library holds the data and formats records.
use vstd::prelude::*;
use std::sync::{Arc, Mutex};

use crate::tree::genotype::clone_labels;

verus! {

/// Relies on log's `LevelFilter` type: an opaque verbosity threshold.
#[verifier::external_type_specification]
#[verifier::external_body]
pub struct ExLevelFilter(log::LevelFilter);

/// Relies on std's `Mutex` type: an opaque lock around its content.
#[verifier::external_type_specification]
#[verifier::external_body]
#[verifier::reject_recursive_types(T)]
pub struct ExMutex<T: ?Sized>(Mutex<T>);

/// A buffer of formatted log lines.
pub struct LogEntries {
    entries: Vec<String>,
}

impl LogEntries {
    /// The buffered lines.
    pub closed spec fn entries_view(&self) -> Seq<Seq<char>> {
        crate::tree::encoding::labels_of(self.entries@)
    }

    pub fn new(entries: Vec<String>) -> (r: Self)
        ensures
            r.entries_view() == crate::tree::encoding::labels_of(entries@),
    {
        Self { entries }
    }

    /// Appends one line to the buffer.
    pub fn add(&mut self, entry: String)
        ensures
            final(self).entries_view() == old(self).entries_view().push(entry@),
    {
        self.entries.push(entry);
        proof {
            assert(self.entries_view() =~= old(self).entries_view().push(
                self.entries@.last()@,
            ));
        }
    }

    /// Hands out all buffered lines and leaves the buffer empty.
    pub fn take_all(&mut self) -> (r: Vec<String>)
        ensures
            crate::tree::encoding::labels_of(r@) == old(self).entries_view(),
            final(self).entries_view() == Seq::<Seq<char>>::empty(),
    {
        let out = clone_labels(&self.entries);
        self.entries = Vec::new();
        proof {
            assert(self.entries_view() =~= Seq::<Seq<char>>::empty());
        }
        out
    }
}

impl Default for LogEntries {
    /// An empty buffer.
    fn default() -> (r: Self)
        ensures
            r.entries_view() == Seq::<Seq<char>>::empty(),
    {
        let r = Self { entries: Vec::new() };
        proof {
            assert(r.entries_view() =~= Seq::<Seq<char>>::empty());
        }
        r
    }
}

/// Configuration of a console logger: an optional file the application
/// mirrors records to, and the verbosity threshold.
pub struct SimpleLogger {
    file_path: Option<String>,
    console_level: log::LevelFilter,
}

impl SimpleLogger {
    pub fn new(file_path: Option<String>, console_level: log::LevelFilter) -> Self {
        Self { file_path, console_level }
    }

    pub fn file_path(&self) -> &Option<String> {
        &self.file_path
    }

    pub fn console_level(&self) -> &log::LevelFilter {
        &self.console_level
    }
}

/// State of a buffering logger: a shared entry buffer and the verbosity
/// threshold; the application's sink drains the buffer.
pub struct Logger {
    entries: Arc<Mutex<LogEntries>>,
    control_level: log::LevelFilter,
}

impl Logger {
    pub fn new(entries: Arc<Mutex<LogEntries>>, control_level: log::LevelFilter) -> Self {
        Self { entries, control_level }
    }

    pub fn entries(&self) -> &Arc<Mutex<LogEntries>> {
        &self.entries
    }

    pub fn control_level(&self) -> &log::LevelFilter {
        &self.control_level
    }

    /// Joins the parts of one log record into a comma-separated line.
    pub fn format_log(
        &self,
        timestamp: &str,
        level: &str,
        target: &str,
        message: &str,
        module_name: &str,
        file: &str,
        line: &str,
    ) -> (r: String)
        ensures
            r@ == timestamp@ + seq![','] + level@ + seq![','] + target@ + seq![','] + message@
                + seq![','] + module_name@ + seq![','] + file@ + seq![','] + line@,
    {
        proof {
            reveal_strlit(",");
            assert((",")@ =~= seq![',']);
        }
        let mut out = String::new();
        out.append(timestamp);
        out.append(",");
        out.append(level);
        out.append(",");
        out.append(target);
        out.append(",");
        out.append(message);
        out.append(",");
        out.append(module_name);
        out.append(",");
        out.append(file);
        out.append(",");
        out.append(line);
        out
    }
}

} // verus!
