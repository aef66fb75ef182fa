//! Lines of the service's own log file.
use crate::text::owned;
use vstd::prelude::*;
use vstd::string::StringExecFns;

verus! {

/// The file that a log without a path of its own goes to.
pub fn default_log_path() -> (path: &'static str)
    ensures
        path@ == "/var/solana/data/shredstream.log"@,
{
    "/var/solana/data/shredstream.log"
}

/// Where the log goes; nowhere until it is set up.
#[derive(Debug)]
pub struct LogTarget {
    pub path: Option<String>,
}

impl LogTarget {
    /// A log that is not set up.
    pub fn new() -> (target: LogTarget)
        ensures
            target.path is None,
    {
        LogTarget { path: None }
    }

    /// Sets the log up, to the given path or the default one; only the first call has an effect.
    pub fn init(&mut self, path: Option<&str>)
        ensures
            final(self).path is Some,
            old(self).path is Some ==> *final(self) == *old(self),
            old(self).path is None ==> final(self).path->Some_0@ == match path {
                Some(p) => p@,
                None => "/var/solana/data/shredstream.log"@,
            },
    {
        if self.path.is_none() {
            let chosen = match path {
                Some(p) => owned(p),
                None => owned(default_log_path()),
            };
            self.path = Some(chosen);
        }
    }

    /// The path the log goes to; `None` before it is set up.
    pub fn log_path(&self) -> (path: Option<&str>)
        ensures
            path is Some <==> self.path is Some,
            path matches Some(p) ==> p@ == self.path->Some_0@,
    {
        match &self.path {
            Some(path) => Some(path.as_str()),
            None => None,
        }
    }
}

/// A line of the log, without its line end.
pub fn log_line(timestamp: &str, level: &str, msg: &str) -> (line: String)
    ensures
        line@ == "["@ + timestamp@ + " "@ + level@ + "] "@ + msg@,
{
    let mut line = owned("[");
    line.append(timestamp);
    line.append(" ");
    line.append(level);
    line.append("] ");
    line.append(msg);
    line
}

} // verus!
