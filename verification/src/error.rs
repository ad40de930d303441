//! The library's error taxonomy: configuration errors are fatal at startup,
//! parse errors mark unrecoverable preconditions, storage errors are surfaced
//! to the caller, who decides what to do with the failed batch.
use vstd::prelude::*;

verus! {

#[derive(Debug)]
pub enum Error {
    /// A required key is missing from the credential backing store.
    MissingEnv(String),
    /// Any other error, described in text.
    Other(String),
    /// A field was present but could not be read as its expected shape.
    FailedToParse { key: String, value: String, error: Option<String> },
    /// A required configuration value is missing.
    MissingConfig(String),
    /// A configuration value is present but invalid.
    InvalidConfig(String),
    /// The durable store reported a failure; the text carries its message.
    Database(String),
    Unspecified,
}

/// The text that describes each error.
pub open spec fn description_of(e: Error) -> Seq<char> {
    match e {
        Error::FailedToParse { key, value, error } => "Failed to parse "@ + value@ + " as "@
            + key@ + match error {
            Some(x) => ": "@ + x@,
            None => Seq::<char>::empty(),
        },
        Error::MissingEnv(k) => "Missing environment variable: "@ + k@,
        Error::MissingConfig(k) => "Missing config value: "@ + k@,
        Error::InvalidConfig(k) => "Invalid config value: "@ + k@,
        Error::Database(m) => m@,
        Error::Other(m) => m@,
        Error::Unspecified => "Unspecified error, please report this"@,
    }
}

impl Error {
    /// A human-readable description of the error.
    pub fn description(&self) -> (r: String)
        ensures
            r@ == description_of(*self),
    {
        match self {
            Error::FailedToParse { key, value, error } => {
                let mut s = String::new();
                s.append("Failed to parse ");
                s.append(value.as_str());
                s.append(" as ");
                s.append(key.as_str());
                match error {
                    Some(e) => {
                        s.append(": ");
                        s.append(e.as_str());
                    },
                    None => {
                        proof {
                            assert(s@ =~= description_of(*self));
                        }
                    },
                }
                s
            },
            Error::MissingEnv(k) => {
                let mut s = String::new();
                s.append("Missing environment variable: ");
                s.append(k.as_str());
                s
            },
            Error::MissingConfig(k) => {
                let mut s = String::new();
                s.append("Missing config value: ");
                s.append(k.as_str());
                s
            },
            Error::InvalidConfig(k) => {
                let mut s = String::new();
                s.append("Invalid config value: ");
                s.append(k.as_str());
                s
            },
            Error::Database(m) => {
                let mut s = String::new();
                s.append(m.as_str());
                proof {
                    assert(s@ =~= description_of(*self));
                }
                s
            },
            Error::Other(m) => {
                let mut s = String::new();
                s.append(m.as_str());
                proof {
                    assert(s@ =~= description_of(*self));
                }
                s
            },
            Error::Unspecified => {
                let mut s = String::new();
                s.append("Unspecified error, please report this");
                s
            },
        }
    }
}

/// One line per error in a cause chain, outermost first.
pub fn get_stacktrace(messages: &Vec<String>) -> (r: String)
    ensures
        r@ == join_with_newlines(messages.deep_view()),
{
    let mut s = String::new();
    let mut i: usize = 0;
    while i < messages.len()
        invariant
            i <= messages.deep_view().len(),
            messages.deep_view().len() == messages@.len(),
            forall|k: int| 0 <= k < messages@.len() ==> messages.deep_view()[k] == messages@[k]@,
            s@ == join_with_newlines(messages.deep_view().take(i as int)),
        decreases messages@.len() - i,
    {
        if i > 0 {
            s.append("\n");
        }
        s.append(messages[i].as_str());
        proof {
            reveal_strlit("\n");
            assert("\n"@ =~= seq!['\n']);
            let dv = messages.deep_view();
            assert(dv.take(i + 1).drop_last() =~= dv.take(i as int));
            assert(dv.take(i + 1).last() == dv[i as int]);
            if i == 0 {
                assert(s@ =~= dv.take(1)[0]);
            }
        }
        i = i + 1;
    }
    proof {
        assert(messages.deep_view().take(messages@.len() as int) =~= messages.deep_view());
    }
    s
}

/// The messages joined by single newlines, no trailing newline.
pub open spec fn join_with_newlines(parts: Seq<Seq<char>>) -> Seq<char>
    decreases parts.len(),
{
    if parts.len() == 0 {
        Seq::empty()
    } else if parts.len() == 1 {
        parts[0]
    } else {
        join_with_newlines(parts.drop_last()) + seq!['\n'] + parts.last()
    }
}

} // verus!
