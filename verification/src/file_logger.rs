//! The append-only file sink. It assumes its target path exists —
//! creating the file is a setup precondition. The append itself opens,
//! writes and flushes through the file system, which the process shell
//! owns; the library holds the sink's identity and its configuration
//! checks.
use vstd::prelude::*;

use crate::config::Config;
use crate::error::Error;

verus! {

/// The append-only file sink's identity: where its lines go.
pub struct FileLogger {
    pub path: String,
}

impl FileLogger {
    pub fn new(path: String) -> (r: Self)
        ensures
            r.path == path,
    {
        Self { path }
    }

    /// The sink for the configured output file; the path is required.
    pub fn from_config(config: &Config) -> (r: Result<Self, Error>)
        ensures
            match config.log_file {
                Some(p) => r matches Ok(f) && f.path@ == p@,
                None => r matches Err(e) && e matches Error::MissingConfig(k) && k@
                    == "log_file"@,
            },
    {
        match &config.log_file {
            Some(p) => Ok(
                Self::new(crate::codec::chars_to_string(&crate::codec::str_to_chars(p.as_str()))),
            ),
            None => Err(Error::MissingConfig(String::from_str("log_file"))),
        }
    }

    /// The line as it goes to the file: the text and a final newline.
    pub fn formatted_line(&self, line: &str) -> (r: String)
        ensures
            r@ == line@ + "\n"@,
    {
        let mut s = crate::codec::chars_to_string(&crate::codec::str_to_chars(line));
        s.append("\n");
        s
    }
}

} // verus!
