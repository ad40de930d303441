//! The console sink: routes each line through one severity channel,
//! selected by the configured level.
use std::io::Write;

use vstd::prelude::*;

use crate::config::Config;
use crate::error::Error;
use crate::value_logger::ValueLogger;

verus! {

/// A severity channel.
#[derive(Debug, Clone, Copy, PartialEq, Eq, Structural)]
pub enum Level {
    Error,
    Warn,
    Info,
    Debug,
    Trace,
}

/// Lower-case form of one character; only ASCII letters change.
pub open spec fn lower_char(c: char) -> char {
    if c == 'A' {
        'a'
    } else if c == 'B' {
        'b'
    } else if c == 'C' {
        'c'
    } else if c == 'D' {
        'd'
    } else if c == 'E' {
        'e'
    } else if c == 'F' {
        'f'
    } else if c == 'G' {
        'g'
    } else if c == 'H' {
        'h'
    } else if c == 'I' {
        'i'
    } else if c == 'J' {
        'j'
    } else if c == 'K' {
        'k'
    } else if c == 'L' {
        'l'
    } else if c == 'M' {
        'm'
    } else if c == 'N' {
        'n'
    } else if c == 'O' {
        'o'
    } else if c == 'P' {
        'p'
    } else if c == 'Q' {
        'q'
    } else if c == 'R' {
        'r'
    } else if c == 'S' {
        's'
    } else if c == 'T' {
        't'
    } else if c == 'U' {
        'u'
    } else if c == 'V' {
        'v'
    } else if c == 'W' {
        'w'
    } else if c == 'X' {
        'x'
    } else if c == 'Y' {
        'y'
    } else if c == 'Z' {
        'z'
    } else {
        c
    }
}

pub open spec fn lower_seq(s: Seq<char>) -> Seq<char> {
    s.map_values(|c: char| lower_char(c))
}

/// The level a configured name selects, compared without regard to case.
pub open spec fn spec_level_of(s: Seq<char>) -> Option<Level> {
    if lower_seq(s) == "error"@ {
        Some(Level::Error)
    } else if lower_seq(s) == "warn"@ {
        Some(Level::Warn)
    } else if lower_seq(s) == "info"@ {
        Some(Level::Info)
    } else if lower_seq(s) == "debug"@ {
        Some(Level::Debug)
    } else if lower_seq(s) == "trace"@ {
        Some(Level::Trace)
    } else {
        None
    }
}

fn lower_char_exec(c: char) -> (r: char)
    ensures
        r == lower_char(c),
{
    match c {
        'A' => 'a',
        'B' => 'b',
        'C' => 'c',
        'D' => 'd',
        'E' => 'e',
        'F' => 'f',
        'G' => 'g',
        'H' => 'h',
        'I' => 'i',
        'J' => 'j',
        'K' => 'k',
        'L' => 'l',
        'M' => 'm',
        'N' => 'n',
        'O' => 'o',
        'P' => 'p',
        'Q' => 'q',
        'R' => 'r',
        'S' => 's',
        'T' => 't',
        'U' => 'u',
        'V' => 'v',
        'W' => 'w',
        'X' => 'x',
        'Y' => 'y',
        'Z' => 'z',
        _ => c,
    }
}

/// Lower-case a string.
fn to_lower(s: &str) -> (r: String)
    ensures
        r@ == lower_seq(s@),
{
    let cs = crate::codec::str_to_chars(s);
    let mut out: Vec<char> = Vec::new();
    let mut i: usize = 0;
    while i < cs.len()
        invariant
            i <= cs@.len(),
            cs@ == s@,
            out@ == lower_seq(cs@.take(i as int)),
        decreases cs@.len() - i,
    {
        out.push(lower_char_exec(cs[i]));
        proof {
            assert(lower_seq(cs@.take(i + 1)) =~= lower_seq(cs@.take(i as int)).push(
                lower_char(cs@[i as int]),
            ));
        }
        i = i + 1;
    }
    proof {
        assert(cs@.take(cs@.len() as int) =~= cs@);
    }
    crate::codec::chars_to_string(&out)
}

/// Relies on `std::io::Stdout` and the `writeln` macro: prints one tagged
/// line to the console, swallowing any I/O failure — the console sink is
/// best effort and never aborts the pipeline.
#[verifier::external_body]
fn emit_console_line(tag: &str, line: &str) {
    let _ = writeln!(std::io::stdout(), "{} {}", tag, line);
}

/// The console sink.
pub struct ConsoleLogger {
    pub level: Level,
}

impl ConsoleLogger {
    pub fn new(level: Level) -> (r: Self)
        ensures
            r.level == level,
    {
        Self { level }
    }

    /// The sink for the configured verbosity. The level name is required
    /// and must be one of the five channels, in any letter case.
    pub fn from_config(config: &Config) -> (r: Result<Self, Error>)
        ensures
            match config.log_level {
                None => r matches Err(e) && e matches Error::MissingConfig(k) && k@
                    == "log_level"@,
                Some(l) => match spec_level_of(l@) {
                    Some(lv) => r matches Ok(c) && c.level == lv,
                    None => r matches Err(e) && e matches Error::InvalidConfig(k) && k@
                        == "log_level"@,
                },
            },
    {
        let name = match &config.log_level {
            Some(l) => l,
            None => {
                return Err(Error::MissingConfig(String::from_str("log_level")));
            },
        };
        let lowered = to_lower(name.as_str());
        let level = if lowered == String::from_str("error") {
            Level::Error
        } else if lowered == String::from_str("warn") {
            Level::Warn
        } else if lowered == String::from_str("info") {
            Level::Info
        } else if lowered == String::from_str("debug") {
            Level::Debug
        } else if lowered == String::from_str("trace") {
            Level::Trace
        } else {
            return Err(Error::InvalidConfig(String::from_str("log_level")));
        };
        Ok(Self::new(level))
    }
}

impl ValueLogger<&str> for ConsoleLogger {
    fn log(&mut self, value: &str) {
        match self.level {
            Level::Error => emit_console_line("ERROR", value),
            Level::Warn => emit_console_line("WARN", value),
            Level::Info => emit_console_line("INFO", value),
            Level::Debug => emit_console_line("DEBUG", value),
            Level::Trace => emit_console_line("TRACE", value),
        }
    }
}

} // verus!
