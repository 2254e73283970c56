//! Appenders that write a whole batch in one call: to standard output, to
//! standard error, or — for inspection and for stating broadcast laws —
//! into memory.

use vstd::prelude::*;

use crate::appender::{FastLogRecord, LogAppender};
use crate::text::{lemma_count_char_concat, spec_count_char};
use std::io::Write;

verus! {

/// The rendered lines of a batch, joined in order: what a console-like
/// appender emits for it.
pub open spec fn spec_concat_rendered(recs: Seq<FastLogRecord>) -> Seq<char>
    decreases recs.len(),
{
    if recs.len() == 0 {
        Seq::empty()
    } else {
        spec_concat_rendered(recs.drop_last()) + recs.last().formated@
    }
}

/// Join the rendered lines of a batch in order.
pub fn concat_rendered(records: &Vec<FastLogRecord>) -> (r: String)
    ensures
        r@ == spec_concat_rendered(records@),
{
    let n: usize = records.len();
    let mut out: String = String::new();
    let mut i: usize = 0;
    proof {
        assert(records@.take(0) =~= Seq::<FastLogRecord>::empty());
    }
    while i < n
        invariant
            i <= n,
            n == records@.len(),
            out@ == spec_concat_rendered(records@.take(i as int)),
        decreases n - i,
    {
        out.append(records[i].formated.as_str());
        i = i + 1;
        proof {
            assert(records@.take(i as int).drop_last() =~= records@.take(i - 1));
        }
    }
    proof {
        assert(records@.take(n as int) =~= records@);
    }
    out
}

/// Relies on std::io::stdout and the write macro: puts the bytes of `s`
/// on standard output, best effort.
#[verifier::external_body]
fn stdout_write(s: &str) {
    let _ = write!(std::io::stdout(), "{}", s);
}

/// Relies on std::io::stderr and the write macro: puts the bytes of `s`
/// on standard error, best effort.
#[verifier::external_body]
fn stderr_write(s: &str) {
    let _ = write!(std::io::stderr(), "{}", s);
}

/// Writes each batch to standard output in one call.
pub struct ConsoleAppender {

}

/// Writes each batch to standard error in one call.
pub struct ConsoleStderrAppender {

}

/// A console-like appender capturing to memory: the sink the broadcast
/// laws and the tests observe.
pub struct MemAppender {
    buf: String,
}

impl MemAppender {
    /// What the sink holds.
    pub closed spec fn spec_buf(&self) -> Seq<char> {
        self.buf@
    }

    /// An empty sink.
    pub fn new() -> (r: MemAppender)
        ensures
            r.spec_buf() == Seq::<char>::empty(),
    {
        MemAppender { buf: String::new() }
    }

    /// Everything written so far.
    pub fn contents(&self) -> (r: &String)
        ensures
            r@ == self.spec_buf(),
    {
        &self.buf
    }

    /// Append a batch: the sink grows by exactly the batch's rendered
    /// lines, in order.
    pub fn write_batch(&mut self, records: &Vec<FastLogRecord>)
        ensures
            final(self).spec_buf() == old(self).spec_buf() + spec_concat_rendered(records@),
    {
        let chunk: String = concat_rendered(records);
        self.buf.append(chunk.as_str());
    }
}

impl LogAppender for MemAppender {
    fn do_logs(&mut self, records: &Vec<FastLogRecord>) {
        self.write_batch(records);
    }
}

impl LogAppender for ConsoleAppender {
    fn do_logs(&mut self, records: &Vec<FastLogRecord>) {
        if records.len() == 0 {
            return;
        }
        let buffer: String = concat_rendered(records);
        stdout_write(buffer.as_str());
    }
}

impl LogAppender for ConsoleStderrAppender {
    fn do_logs(&mut self, records: &Vec<FastLogRecord>) {
        if records.len() == 0 {
            return;
        }
        let buffer: String = concat_rendered(records);
        stderr_write(buffer.as_str());
    }
}

/// Line accounting: a batch whose every rendered line holds exactly one
/// newline joins into a sink slice with exactly one newline per record —
/// emit `K` records, flush, and the sink shows exactly `K` rendered
/// lines.
pub proof fn lemma_k_records_k_lines(recs: Seq<FastLogRecord>)
    requires
        forall|k: int|
            0 <= k < recs.len() ==> spec_count_char(
                (#[trigger] recs[k]).formated@,
                '\n',
            ) == 1,
    ensures
        spec_count_char(spec_concat_rendered(recs), '\n') == recs.len(),
    decreases recs.len(),
{
    if recs.len() > 0 {
        lemma_k_records_k_lines(recs.drop_last());
        lemma_count_char_concat(
            spec_concat_rendered(recs.drop_last()),
            recs.last().formated@,
            '\n',
        );
    }
}

/// Broadcast equality: two memory sinks that start equal and receive the
/// same batch hold the same characters afterwards — every appender in a
/// configuration sees the same ordered sequence of records, so their
/// sinks agree.
pub proof fn lemma_broadcast_equality(
    b1: Seq<char>,
    b2: Seq<char>,
    recs1: Seq<FastLogRecord>,
    recs2: Seq<FastLogRecord>,
)
    requires
        b1 == b2,
        recs1 == recs2,
    ensures
        b1 + spec_concat_rendered(recs1) == b2 + spec_concat_rendered(recs2),
{
}

} // verus!
