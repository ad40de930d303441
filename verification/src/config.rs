//! The configuration surface. Loading the values from a file belongs to
//! the process shell; the library receives them as plain values. A
//! missing required value is found where it is first needed and is fatal
//! at startup.
use vstd::prelude::*;

verus! {

/// Per-channel settings; none exist yet, joining is all there is.
#[derive(Debug, Clone)]
pub struct ChannelConfig {}

/// All settings of one run.
#[derive(Debug, Clone)]
pub struct Config {
    /// Namespace prefix for the credential store keys.
    pub env_prefix: Option<String>,
    /// Path of the credential backing file.
    pub env_file: Option<String>,
    /// The channels to join, each with its settings.
    pub channels: Option<Vec<(String, ChannelConfig)>>,
    /// Path of the append-only output file.
    pub log_file: Option<String>,
    /// Console verbosity: error, warn, info, debug or trace.
    pub log_level: Option<String>,
    /// Connection string of the durable store.
    pub db_url: Option<String>,
    /// Target table in the durable store.
    pub db_table: Option<String>,
}

impl Config {
    /// A configuration from its plain values.
    pub fn new(
        env_prefix: Option<String>,
        env_file: Option<String>,
        channels: Option<Vec<(String, ChannelConfig)>>,
        log_file: Option<String>,
        log_level: Option<String>,
        db_url: Option<String>,
        db_table: Option<String>,
    ) -> (r: Self)
        ensures
            r.env_prefix == env_prefix,
            r.env_file == env_file,
            r.channels == channels,
            r.log_file == log_file,
            r.log_level == log_level,
            r.db_url == db_url,
            r.db_table == db_table,
    {
        Self { env_prefix, env_file, channels, log_file, log_level, db_url, db_table }
    }

    /// The names of the channels to join, in configuration order.
    pub fn channel_names(&self) -> (r: Vec<String>)
        ensures
            match self.channels {
                Some(cs) => r@.len() == cs@.len() && forall|i: int|
                    0 <= i < r@.len() ==> r@[i]@ == cs@[i].0@,
                None => r@.len() == 0,
            },
    {
        let mut out: Vec<String> = Vec::new();
        match &self.channels {
            Some(cs) => {
                let mut i: usize = 0;
                while i < cs.len()
                    invariant
                        i <= cs@.len(),
                        r_names_prefix(out@, cs@, i as int),
                    decreases cs@.len() - i,
                {
                    out.push(crate::codec::chars_to_string(&crate::codec::str_to_chars(cs[i].0.as_str())));
                    i = i + 1;
                }
                out
            },
            None => out,
        }
    }
}

/// The first `n` channel names have been copied.
pub open spec fn r_names_prefix(out: Seq<String>, cs: Seq<(String, ChannelConfig)>, n: int) -> bool {
    out.len() == n && forall|i: int| 0 <= i < n ==> out[i]@ == cs[i].0@
}

} // verus!
