//! The durable sink, modelled on an in-memory row store with the same
//! contract the storage boundary gives: a batch becomes visible in full
//! or not at all. A fault can be injected before any row of a batch, to
//! stand for connectivity loss mid-write; the rollback contract holds for
//! every injection point. The process shell drives a real row store with
//! the same statement, built by `build_insert_query`.
use vstd::prelude::*;

use crate::buffer::msg_views;
use crate::chat::ChatMessage;
use crate::chat::ChatMessageView;
use crate::config::Config;
use crate::error::Error;

verus! {

/// The transactional sink. `rows` is the model of what a subsequent read
/// of the store would see.
pub struct DbLogger {
    table_name: String,
    rows: Vec<ChatMessage>,
    transactions_started: u64,
    fail_before_row: Option<usize>,
}

impl DbLogger {
    /// The rows a read would see now, in insertion order.
    pub closed spec fn rows_view(&self) -> Seq<ChatMessageView> {
        msg_views(self.rows@)
    }

    /// How many transactions were ever opened.
    pub closed spec fn transactions_spec(&self) -> u64 {
        self.transactions_started
    }

    pub closed spec fn table_name_spec(&self) -> Seq<char> {
        self.table_name@
    }

    /// The injected fault, if any: writing row `k` of a batch fails.
    pub closed spec fn fail_spec(&self) -> Option<usize> {
        self.fail_before_row
    }

    /// A sink writing to the given table, with no fault injected.
    pub fn new(table_name: String) -> (r: Self)
        ensures
            r.rows_view() == Seq::<ChatMessageView>::empty(),
            r.transactions_spec() == 0,
            r.table_name_spec() == table_name@,
            r.fail_spec() is None,
    {
        let r = DbLogger {
            table_name,
            rows: Vec::new(),
            transactions_started: 0,
            fail_before_row: None,
        };
        proof {
            assert(r.rows_view() =~= Seq::<ChatMessageView>::empty());
        }
        r
    }

    /// A sink for the configured table; the table name is required.
    pub fn from_config(config: &Config) -> (r: Result<Self, Error>)
        ensures
            match config.db_table {
                Some(t) => r matches Ok(s) && s.table_name_spec() == t@ && s.rows_view()
                    == Seq::<ChatMessageView>::empty() && s.transactions_spec() == 0
                    && s.fail_spec() is None,
                None => r matches Err(e) && e matches Error::MissingConfig(k) && k@
                    == "db_table"@,
            },
    {
        match &config.db_table {
            Some(t) => {
                let name = crate::codec::chars_to_string(&crate::codec::str_to_chars(t.as_str()));
                Ok(Self::new(name))
            },
            None => Err(Error::MissingConfig(String::from_str("db_table"))),
        }
    }

    /// Inject or clear a fault: the write of row `k` of a later batch
    /// will fail, as a broken connection would.
    pub fn set_fail_before_row(&mut self, k: Option<usize>)
        ensures
            final(self).fail_spec() == k,
            final(self).rows_view() == old(self).rows_view(),
            final(self).transactions_spec() == old(self).transactions_spec(),
            final(self).table_name_spec() == old(self).table_name_spec(),
    {
        self.fail_before_row = k;
    }

    /// Whether writing a batch of `n` rows hits the injected fault.
    pub open spec fn batch_fails(&self, n: nat) -> bool {
        match self.fail_spec() {
            Some(k) => (k as nat) < n,
            None => false,
        }
    }

    /// Append one row; a single-row write outside any batch.
    pub fn create_log(&mut self, message: &ChatMessage) -> (r: Result<(), Error>)
        ensures
            if old(self).batch_fails(1) {
                &&& r is Err
                &&& final(self).rows_view() == old(self).rows_view()
            } else {
                &&& r is Ok
                &&& final(self).rows_view() == old(self).rows_view().push(message@)
            },
            final(self).transactions_spec() == old(self).transactions_spec(),
            final(self).table_name_spec() == old(self).table_name_spec(),
            final(self).fail_spec() == old(self).fail_spec(),
    {
        let fails = match self.fail_before_row {
            Some(k) => k < 1,
            None => false,
        };
        if fails {
            Err(Error::Database(String::from_str("connection lost")))
        } else {
            let c = message.clone();
            proof {
                assert(msg_views(self.rows@.push(c)) =~= msg_views(self.rows@).push(message@));
            }
            self.rows.push(c);
            Ok(())
        }
    }

    /// Persist a batch, all or nothing. An empty batch succeeds without
    /// opening a transaction; a failed batch leaves no row behind.
    pub fn create_log_batch(&mut self, messages: &Vec<ChatMessage>) -> (r: Result<(), Error>)
        ensures
            final(self).table_name_spec() == old(self).table_name_spec(),
            final(self).fail_spec() == old(self).fail_spec(),
            if messages@.len() == 0 {
                &&& r is Ok
                &&& final(self).rows_view() == old(self).rows_view()
                &&& final(self).transactions_spec() == old(self).transactions_spec()
            } else {
                &&& final(self).transactions_spec() == if old(self).transactions_spec()
                    == u64::MAX {
                    u64::MAX
                } else {
                    (old(self).transactions_spec() + 1) as u64
                }
                &&& if old(self).batch_fails(messages@.len() as nat) {
                    &&& r is Err
                    &&& final(self).rows_view() == old(self).rows_view()
                } else {
                    &&& r is Ok
                    &&& final(self).rows_view() == old(self).rows_view() + msg_views(messages@)
                }
            },
    {
        if messages.len() == 0 {
            return Ok(());
        }
        if self.transactions_started < u64::MAX {
            self.transactions_started = self.transactions_started + 1;
        }
        let fails = match self.fail_before_row {
            Some(k) => k < messages.len(),
            None => false,
        };
        if fails {
            // roll back: nothing written becomes visible
            return Err(Error::Database(String::from_str("connection lost")));
        }
        // commit: every row becomes visible at once
        let mut i: usize = 0;
        while i < messages.len()
            invariant
                i <= messages@.len(),
                self.rows@.len() == old(self).rows@.len() + i,
                msg_views(self.rows@) == old(self).rows_view() + msg_views(messages@.take(
                    i as int,
                )),
                self.table_name@ == old(self).table_name@,
                self.transactions_started == if old(self).transactions_started == u64::MAX {
                    u64::MAX
                } else {
                    (old(self).transactions_started + 1) as u64
                },
                self.fail_before_row == old(self).fail_before_row,
            decreases messages@.len() - i,
        {
            let m = messages[i].clone();
            proof {
                assert(msg_views(self.rows@.push(m)) =~= msg_views(self.rows@).push(
                    messages@[i as int]@,
                ));
                assert(msg_views(messages@.take(i + 1)) =~= msg_views(messages@.take(
                    i as int,
                )).push(messages@[i as int]@));
                assert((old(self).rows_view() + msg_views(messages@.take(i as int))).push(
                    messages@[i as int]@,
                ) =~= old(self).rows_view() + msg_views(messages@.take(i + 1)));
            }
            self.rows.push(m);
            i = i + 1;
        }
        proof {
            assert(messages@.take(messages@.len() as int) =~= messages@);
        }
        Ok(())
    }

    /// The rows a read would see now.
    pub fn rows(&self) -> (r: &Vec<ChatMessage>)
        ensures
            msg_views(r@) == self.rows_view(),
    {
        &self.rows
    }

    /// How many transactions this sink has opened.
    pub fn transactions_started(&self) -> (r: u64)
        ensures
            r == self.transactions_spec(),
    {
        self.transactions_started
    }
}

/// The one statement shape the durable sink uses: one row per execution,
/// inside one transaction per batch.
pub fn build_insert_query(table_name: &str) -> (r: String)
    ensures
        r@ == "INSERT INTO "@ + table_name@
            + " (username, message, channel, sent_at) VALUES ($1, $2, $3, $4)"@,
{
    let mut s = String::from_str("INSERT INTO ");
    s.append(table_name);
    s.append(" (username, message, channel, sent_at) VALUES ($1, $2, $3, $4)");
    s
}

} // verus!
