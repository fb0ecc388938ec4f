//! The fixed words of the wire format, and how they are read and written.
use vstd::prelude::*;
use crate::json::{
    expect, expect_byte, holds_at, lemma_holds_at_concat, lemma_holds_at_index, push_all, skip, QUOTE,
};

verus! {

/// A fixed word of the wire format: a variant tag, a field name, or a message.
#[derive(Clone, Copy, Debug, PartialEq, Eq, Structural)]
pub enum Word {
    AddJob,
    ListJobs,
    DeleteJob,
    StopService,
    PingService,
    Cron,
    Job,
    Id,
    Command,
    RhaiScript,
    RhaiScriptFile,
    JobAdded,
    JobList,
    JobDeleted,
    ServiceRunning,
    ServiceStopping,
    ServiceStopped,
    ServiceNotRunning,
    Nothing,
    Error,
    LastRun,
    NextRun,
    BadCron,
    BadId,
    UnknownJob,
    Malformed,
    JobIdKey,
    MessageKey,
    ErrorKey,
    JobDeletedText,
    ServiceRunningText,
    ServiceStoppingText,
    ServiceStoppedText,
    ServiceNotRunningText,
}

/// The bytes of a word.
pub open spec fn word(w: Word) -> Seq<u8> {
    match w {
        Word::AddJob => seq![65u8, 100u8, 100u8, 74u8, 111u8, 98u8],  // AddJob
        Word::ListJobs => seq![76u8, 105u8, 115u8, 116u8, 74u8, 111u8, 98u8, 115u8],  // ListJobs
        Word::DeleteJob => seq![68u8, 101u8, 108u8, 101u8, 116u8, 101u8, 74u8, 111u8, 98u8],  // DeleteJob
        Word::StopService => seq![83u8, 116u8, 111u8, 112u8, 83u8, 101u8, 114u8, 118u8, 105u8, 99u8, 101u8],  // StopService
        Word::PingService => seq![80u8, 105u8, 110u8, 103u8, 83u8, 101u8, 114u8, 118u8, 105u8, 99u8, 101u8],  // PingService
        Word::Cron => seq![99u8, 114u8, 111u8, 110u8],  // cron
        Word::Job => seq![106u8, 111u8, 98u8],  // job
        Word::Id => seq![105u8, 100u8],  // id
        Word::Command => seq![67u8, 111u8, 109u8, 109u8, 97u8, 110u8, 100u8],  // Command
        Word::RhaiScript => seq![82u8, 104u8, 97u8, 105u8, 83u8, 99u8, 114u8, 105u8, 112u8, 116u8],  // RhaiScript
        Word::RhaiScriptFile => seq![82u8, 104u8, 97u8, 105u8, 83u8, 99u8, 114u8, 105u8, 112u8, 116u8, 70u8, 105u8, 108u8, 101u8],  // RhaiScriptFile
        Word::JobAdded => seq![74u8, 111u8, 98u8, 65u8, 100u8, 100u8, 101u8, 100u8],  // JobAdded
        Word::JobList => seq![74u8, 111u8, 98u8, 76u8, 105u8, 115u8, 116u8],  // JobList
        Word::JobDeleted => seq![74u8, 111u8, 98u8, 68u8, 101u8, 108u8, 101u8, 116u8, 101u8, 100u8],  // JobDeleted
        Word::ServiceRunning => seq![83u8, 101u8, 114u8, 118u8, 105u8, 99u8, 101u8, 82u8, 117u8, 110u8, 110u8, 105u8, 110u8, 103u8],  // ServiceRunning
        Word::ServiceStopping => seq![83u8, 101u8, 114u8, 118u8, 105u8, 99u8, 101u8, 83u8, 116u8, 111u8, 112u8, 112u8, 105u8, 110u8, 103u8],  // ServiceStopping
        Word::ServiceStopped => seq![83u8, 101u8, 114u8, 118u8, 105u8, 99u8, 101u8, 83u8, 116u8, 111u8, 112u8, 112u8, 101u8, 100u8],  // ServiceStopped
        Word::ServiceNotRunning => seq![83u8, 101u8, 114u8, 118u8, 105u8, 99u8, 101u8, 78u8, 111u8, 116u8, 82u8, 117u8, 110u8, 110u8, 105u8, 110u8, 103u8],  // ServiceNotRunning
        Word::Nothing => seq![78u8, 111u8, 116u8, 104u8, 105u8, 110u8, 103u8],  // Nothing
        Word::Error => seq![69u8, 114u8, 114u8, 111u8, 114u8],  // Error
        Word::LastRun => seq![108u8, 97u8, 115u8, 116u8, 95u8, 114u8, 117u8, 110u8],  // last_run
        Word::NextRun => seq![110u8, 101u8, 120u8, 116u8, 95u8, 114u8, 117u8, 110u8],  // next_run
        Word::BadCron => seq![66u8, 97u8, 100u8, 67u8, 114u8, 111u8, 110u8],  // BadCron
        Word::BadId => seq![66u8, 97u8, 100u8, 73u8, 100u8],  // BadId
        Word::UnknownJob => seq![85u8, 110u8, 107u8, 110u8, 111u8, 119u8, 110u8, 74u8, 111u8, 98u8],  // UnknownJob
        Word::Malformed => seq![77u8, 97u8, 108u8, 102u8, 111u8, 114u8, 109u8, 101u8, 100u8],  // Malformed
        Word::JobIdKey => seq![106u8, 111u8, 98u8, 95u8, 105u8, 100u8],  // job_id
        Word::MessageKey => seq![109u8, 101u8, 115u8, 115u8, 97u8, 103u8, 101u8],  // message
        Word::ErrorKey => seq![101u8, 114u8, 114u8, 111u8, 114u8],  // error
        Word::JobDeletedText => seq![74u8, 111u8, 98u8, 32u8, 100u8, 101u8, 108u8, 101u8, 116u8, 101u8, 100u8],  // Job deleted
        Word::ServiceRunningText => seq![83u8, 101u8, 114u8, 118u8, 105u8, 99u8, 101u8, 32u8, 114u8, 117u8, 110u8, 110u8, 105u8, 110u8, 103u8],  // Service running
        Word::ServiceStoppingText => seq![83u8, 101u8, 114u8, 118u8, 105u8, 99u8, 101u8, 32u8, 115u8, 116u8, 111u8, 112u8, 112u8, 105u8, 110u8, 103u8],  // Service stopping
        Word::ServiceStoppedText => seq![83u8, 101u8, 114u8, 118u8, 105u8, 99u8, 101u8, 32u8, 115u8, 116u8, 111u8, 112u8, 112u8, 101u8, 100u8],  // Service stopped
        Word::ServiceNotRunningText => seq![83u8, 101u8, 114u8, 118u8, 105u8, 99u8, 101u8, 32u8, 110u8, 111u8, 116u8, 32u8, 114u8, 117u8, 110u8, 110u8, 105u8, 110u8, 103u8],  // Service not running
    }
}

/// The bytes of a word.
pub fn word_bytes(w: Word) -> (r: Vec<u8>)
    ensures
        r@ == word(w),
{
    match w {
        Word::AddJob => vec![65u8, 100u8, 100u8, 74u8, 111u8, 98u8],  // AddJob
        Word::ListJobs => vec![76u8, 105u8, 115u8, 116u8, 74u8, 111u8, 98u8, 115u8],  // ListJobs
        Word::DeleteJob => vec![68u8, 101u8, 108u8, 101u8, 116u8, 101u8, 74u8, 111u8, 98u8],  // DeleteJob
        Word::StopService => vec![83u8, 116u8, 111u8, 112u8, 83u8, 101u8, 114u8, 118u8, 105u8, 99u8, 101u8],  // StopService
        Word::PingService => vec![80u8, 105u8, 110u8, 103u8, 83u8, 101u8, 114u8, 118u8, 105u8, 99u8, 101u8],  // PingService
        Word::Cron => vec![99u8, 114u8, 111u8, 110u8],  // cron
        Word::Job => vec![106u8, 111u8, 98u8],  // job
        Word::Id => vec![105u8, 100u8],  // id
        Word::Command => vec![67u8, 111u8, 109u8, 109u8, 97u8, 110u8, 100u8],  // Command
        Word::RhaiScript => vec![82u8, 104u8, 97u8, 105u8, 83u8, 99u8, 114u8, 105u8, 112u8, 116u8],  // RhaiScript
        Word::RhaiScriptFile => vec![82u8, 104u8, 97u8, 105u8, 83u8, 99u8, 114u8, 105u8, 112u8, 116u8, 70u8, 105u8, 108u8, 101u8],  // RhaiScriptFile
        Word::JobAdded => vec![74u8, 111u8, 98u8, 65u8, 100u8, 100u8, 101u8, 100u8],  // JobAdded
        Word::JobList => vec![74u8, 111u8, 98u8, 76u8, 105u8, 115u8, 116u8],  // JobList
        Word::JobDeleted => vec![74u8, 111u8, 98u8, 68u8, 101u8, 108u8, 101u8, 116u8, 101u8, 100u8],  // JobDeleted
        Word::ServiceRunning => vec![83u8, 101u8, 114u8, 118u8, 105u8, 99u8, 101u8, 82u8, 117u8, 110u8, 110u8, 105u8, 110u8, 103u8],  // ServiceRunning
        Word::ServiceStopping => vec![83u8, 101u8, 114u8, 118u8, 105u8, 99u8, 101u8, 83u8, 116u8, 111u8, 112u8, 112u8, 105u8, 110u8, 103u8],  // ServiceStopping
        Word::ServiceStopped => vec![83u8, 101u8, 114u8, 118u8, 105u8, 99u8, 101u8, 83u8, 116u8, 111u8, 112u8, 112u8, 101u8, 100u8],  // ServiceStopped
        Word::ServiceNotRunning => vec![83u8, 101u8, 114u8, 118u8, 105u8, 99u8, 101u8, 78u8, 111u8, 116u8, 82u8, 117u8, 110u8, 110u8, 105u8, 110u8, 103u8],  // ServiceNotRunning
        Word::Nothing => vec![78u8, 111u8, 116u8, 104u8, 105u8, 110u8, 103u8],  // Nothing
        Word::Error => vec![69u8, 114u8, 114u8, 111u8, 114u8],  // Error
        Word::LastRun => vec![108u8, 97u8, 115u8, 116u8, 95u8, 114u8, 117u8, 110u8],  // last_run
        Word::NextRun => vec![110u8, 101u8, 120u8, 116u8, 95u8, 114u8, 117u8, 110u8],  // next_run
        Word::BadCron => vec![66u8, 97u8, 100u8, 67u8, 114u8, 111u8, 110u8],  // BadCron
        Word::BadId => vec![66u8, 97u8, 100u8, 73u8, 100u8],  // BadId
        Word::UnknownJob => vec![85u8, 110u8, 107u8, 110u8, 111u8, 119u8, 110u8, 74u8, 111u8, 98u8],  // UnknownJob
        Word::Malformed => vec![77u8, 97u8, 108u8, 102u8, 111u8, 114u8, 109u8, 101u8, 100u8],  // Malformed
        Word::JobIdKey => vec![106u8, 111u8, 98u8, 95u8, 105u8, 100u8],  // job_id
        Word::MessageKey => vec![109u8, 101u8, 115u8, 115u8, 97u8, 103u8, 101u8],  // message
        Word::ErrorKey => vec![101u8, 114u8, 114u8, 111u8, 114u8],  // error
        Word::JobDeletedText => vec![74u8, 111u8, 98u8, 32u8, 100u8, 101u8, 108u8, 101u8, 116u8, 101u8, 100u8],  // Job deleted
        Word::ServiceRunningText => vec![83u8, 101u8, 114u8, 118u8, 105u8, 99u8, 101u8, 32u8, 114u8, 117u8, 110u8, 110u8, 105u8, 110u8, 103u8],  // Service running
        Word::ServiceStoppingText => vec![83u8, 101u8, 114u8, 118u8, 105u8, 99u8, 101u8, 32u8, 115u8, 116u8, 111u8, 112u8, 112u8, 105u8, 110u8, 103u8],  // Service stopping
        Word::ServiceStoppedText => vec![83u8, 101u8, 114u8, 118u8, 105u8, 99u8, 101u8, 32u8, 115u8, 116u8, 111u8, 112u8, 112u8, 101u8, 100u8],  // Service stopped
        Word::ServiceNotRunningText => vec![83u8, 101u8, 114u8, 118u8, 105u8, 99u8, 101u8, 32u8, 110u8, 111u8, 116u8, 32u8, 114u8, 117u8, 110u8, 110u8, 105u8, 110u8, 103u8],  // Service not running
    }
}
/// A word between quotes.
pub open spec fn quoted(n: Seq<u8>) -> Seq<u8> {
    seq![QUOTE] + n + seq![QUOTE]
}

/// A word between quotes, followed by a colon: the key of an object member.
pub open spec fn key(n: Seq<u8>) -> Seq<u8> {
    quoted(n) + seq![COLON]
}

pub const COLON: u8 = 58;

pub const OPEN_BRACE: u8 = 123;

pub const CLOSE_BRACE: u8 = 125;

/// No word holds a quote.
pub proof fn lemma_word_unquoted(w: Word)
    ensures
        forall|k: int| 0 <= k < word(w).len() ==> #[trigger] word(w)[k] != QUOTE,
{
}

/// Where the first quote at or after `j` stands, or the end of `b`.
pub open spec fn quote_from(b: Seq<u8>, j: int) -> int
    decreases b.len() - j,
{
    if 0 <= j < b.len() && b[j] != QUOTE {
        quote_from(b, j + 1)
    } else {
        j
    }
}

/// The bytes between the quotes that start at `i`, and the position after them.
pub open spec fn name_at(b: Seq<u8>, i: int) -> Option<(Seq<u8>, int)> {
    match skip(b, i, seq![QUOTE]) {
        Some(j) => {
            let e = quote_from(b, j);
            if e < b.len() {
                Some((b.subrange(j, e), e + 1))
            } else {
                None
            }
        },
        None => None,
    }
}

proof fn lemma_quote_from(b: Seq<u8>, j: int, e: int)
    requires
        0 <= j <= e < b.len(),
        forall|k: int| j <= k < e ==> b[k] != QUOTE,
        b[e] == QUOTE,
    ensures
        quote_from(b, j) == e,
    decreases e - j,
{
    if j < e {
        lemma_quote_from(b, j + 1, e);
    }
}

/// Reading the quoted word `w` gives `w` back.
pub proof fn lemma_name_round_trip(b: Seq<u8>, i: int, w: Word)
    requires
        holds_at(b, i, quoted(word(w))),
    ensures
        name_at(b, i) == Some((word(w), i + word(w).len() + 2)),
{
    let n = word(w);
    lemma_word_unquoted(w);
    lemma_holds_at_concat(b, i, seq![QUOTE] + n, seq![QUOTE]);
    lemma_holds_at_concat(b, i, seq![QUOTE], n);
    assert forall|k: int| i + 1 <= k < i + 1 + n.len() implies b[k] != QUOTE by {
        lemma_holds_at_index(b, i + 1, n, k - i - 1);
    }
    lemma_holds_at_index(b, i + 1 + n.len(), seq![QUOTE], 0);
    lemma_quote_from(b, i + 1, i + 1 + n.len());
}

pub fn read_name(b: &[u8], i: usize) -> (r: Option<(Vec<u8>, usize)>)
    ensures
        match r {
            Some((n, j)) => name_at(b@, i as int) == Some((n@, j as int)),
            None => name_at(b@, i as int) is None,
        },
{
    let start = match expect_byte(b, i, QUOTE) {
        Some(j) => j,
        None => return None,
    };
    let mut e: usize = start;
    let mut n: Vec<u8> = Vec::new();
    while e < b.len() && b[e] != QUOTE
        invariant
            start <= e <= b.len(),
            quote_from(b@, start as int) == quote_from(b@, e as int),
            n@ == b@.subrange(start as int, e as int),
        decreases b.len() - e,
    {
        n.push(b[e]);
        proof {
            assert(b@.subrange(start as int, e + 1) =~= b@.subrange(start as int, e as int).push(
                b@[e as int],
            ));
        }
        e = e + 1;
    }
    if e >= b.len() {
        return None;
    }
    Some((n, e + 1))
}

/// Whether two byte strings are equal.
pub fn same_bytes(x: &[u8], y: &[u8]) -> (r: bool)
    ensures
        r == (x@ == y@),
{
    if x.len() != y.len() {
        return false;
    }
    let mut k: usize = 0;
    while k < x.len()
        invariant
            k <= x@.len(),
            x@.len() == y@.len(),
            forall|m: int| 0 <= m < k ==> x@[m] == y@[m],
        decreases x.len() - k,
    {
        if x[k] != y[k] {
            return false;
        }
        k = k + 1;
    }
    proof {
        assert(x@ =~= y@);
    }
    true
}

/// Appends the word `w` between quotes.
pub fn push_quoted(out: &mut Vec<u8>, w: Word)
    ensures
        final(out)@ == old(out)@ + quoted(word(w)),
{
    let t = word_bytes(w);
    out.push(QUOTE);
    push_all(out, t.as_slice());
    out.push(QUOTE);
    proof {
        assert(final(out)@ =~= old(out)@ + quoted(word(w)));
    }
}

/// Appends the key `"w":`.
pub fn push_key(out: &mut Vec<u8>, w: Word)
    ensures
        final(out)@ == old(out)@ + key(word(w)),
{
    push_quoted(out, w);
    out.push(COLON);
    proof {
        assert(final(out)@ =~= old(out)@ + key(word(w)));
    }
}

/// The position after the key `"w":`, if `b` holds it at `i`.
pub fn expect_key(b: &[u8], i: usize, w: Word) -> (r: Option<usize>)
    ensures
        match r {
            Some(j) => skip(b@, i as int, key(word(w))) == Some(j as int),
            None => skip(b@, i as int, key(word(w))) is None,
        },
{
    let mut t: Vec<u8> = Vec::new();
    push_key(&mut t, w);
    proof {
        assert(t@ =~= key(word(w)));
    }
    expect(b, i, t.as_slice())
}

} // verus!
