//! The full scan behind `search`: which rows of a primary sub-database are
//! sent to the consumer, and when the scan stops.
use vstd::prelude::*;
use crate::barn::{barrel_named, Barn};
use crate::codec::{enc_pk, le64, lemma_le64_injective};
use crate::errors::{BarnError, LoadError};

verus! {

/// What became of one scanned row after decoding and filtering.
#[derive(Debug, Clone, Copy, PartialEq, Eq, Structural)]
pub enum RowStatus {
    Undecodable,
    NoMatch,
    Match,
}

/// What the scan does with a row.
#[derive(Debug, Clone, Copy, PartialEq, Eq, Structural)]
pub enum ScanAction {
    Send,
    Skip,
    Stop,
}

/// A running scan; `done` once it has stopped.
pub struct Scanner {
    pub done: bool,
}

/// One row: the state after it, and what is done with it. The counter row
/// at the key of 0 is never sent; a row that does not decode ends the scan.
pub open spec fn scan_step(done: bool, key: Seq<u8>, c: RowStatus) -> (bool, ScanAction) {
    if done {
        (true, ScanAction::Stop)
    } else if key == le64(0) {
        (false, ScanAction::Skip)
    } else {
        match c {
            RowStatus::Undecodable => (true, ScanAction::Stop),
            RowStatus::NoMatch => (false, ScanAction::Skip),
            RowStatus::Match => (false, ScanAction::Send),
        }
    }
}

/// How many of `rows` a scan in state `done` sends, every send succeeding.
pub open spec fn sends(done: bool, rows: Seq<(Seq<u8>, RowStatus)>) -> nat
    decreases rows.len(),
{
    if rows.len() == 0 {
        0
    } else {
        let (d, a) = scan_step(done, rows[0].0, rows[0].1);
        (if a == ScanAction::Send {
            1nat
        } else {
            0nat
        }) + sends(d, rows.drop_first())
    }
}

impl Scanner {
    pub fn new() -> (r: Scanner)
        ensures
            !r.done,
    {
        Scanner { done: false }
    }

    /// Where the cursor is placed: the key of id 1, past the counter row.
    pub fn start_key(&self) -> (r: Vec<u8>)
        ensures
            r@ == le64(1),
    {
        enc_pk(1)
    }

    /// Decides on the row at `key`.
    pub fn on_row(&mut self, key: &Vec<u8>, c: RowStatus) -> (r: ScanAction)
        ensures
            (final(self).done, r) == scan_step(old(self).done, key@, c),
    {
        if self.done {
            return ScanAction::Stop;
        }
        let zero = enc_pk(0);
        if bytes_eq(key, &zero) {
            return ScanAction::Skip;
        }
        match c {
            RowStatus::Undecodable => {
                self.done = true;
                ScanAction::Stop
            },
            RowStatus::NoMatch => ScanAction::Skip,
            RowStatus::Match => ScanAction::Send,
        }
    }

    /// Records the outcome of a send: a consumer that has gone away ends
    /// the scan.
    pub fn on_sent(&mut self, ok: bool)
        ensures
            final(self).done == (old(self).done || !ok),
    {
        if !ok {
            self.done = true;
        }
    }

    /// Records that the cursor has no more rows.
    pub fn on_end(&mut self)
        ensures
            final(self).done,
    {
        self.done = true;
    }
}

/// Whether two byte strings are equal.
pub fn bytes_eq(a: &Vec<u8>, b: &Vec<u8>) -> (r: bool)
    ensures
        r == (a@ == b@),
{
    if a.len() != b.len() {
        return false;
    }
    let mut i: usize = 0;
    while i < a.len()
        invariant
            a@.len() == b@.len(),
            i <= a@.len(),
            a@.subrange(0, i as int) == b@.subrange(0, i as int),
        decreases a@.len() - i,
    {
        if a[i] != b[i] {
            return false;
        }
        assert(a@.subrange(0, i + 1) =~= a@.subrange(0, i as int).push(a@[i as int]));
        assert(b@.subrange(0, i + 1) =~= b@.subrange(0, i as int).push(b@[i as int]));
        i = i + 1;
    }
    assert(a@ =~= a@.subrange(0, i as int));
    assert(b@ =~= b@.subrange(0, i as int));
    true
}

impl Barn {
    /// Starts a scan of resource `res_name` with a filter that compiled or
    /// not: `UnknownResourceName` where there is no such resource, else
    /// `BadSearchFilter` where the filter did not compile.
    pub fn search(&self, res_name: &str, filter_compiled: bool) -> (r: Result<Scanner, BarnError>)
        ensures
            barrel_named(self.barrels@, res_name@) is None ==> r == Err::<Scanner, BarnError>(
                BarnError::UnknownResourceName,
            ),
            barrel_named(self.barrels@, res_name@) is Some && !filter_compiled ==> r == Err::<
                Scanner,
                BarnError,
            >(BarnError::BadSearchFilter),
            barrel_named(self.barrels@, res_name@) is Some && filter_compiled ==> (r matches Ok(s)
                && !s.done),
    {
        match self.barrel(res_name) {
            None => Err(BarnError::UnknownResourceName),
            Some(_) => {
                if filter_compiled {
                    Ok(Scanner::new())
                } else {
                    Err(BarnError::BadSearchFilter)
                }
            },
        }
    }
}

/// The output for the received messages, in order: each document
/// followed by a newline; a failed message writes nothing.
pub open spec fn framed(ms: Seq<Option<Vec<u8>>>) -> Seq<u8>
    decreases ms.len(),
{
    if ms.len() == 0 {
        Seq::empty()
    } else {
        framed(ms.drop_last()) + match ms.last() {
            Some(d) => d@ + seq![10u8],
            None => Seq::empty(),
        }
    }
}

/// Writes the messages that a search of `res_name` sent: `SearchError`,
/// with nothing written, where the search cannot start; else each received
/// document followed by a newline, in the order received.
pub fn search_data(
    barn: &Barn,
    res_name: &str,
    filter_compiled: bool,
    messages: &Vec<Option<Vec<u8>>>,
    target: &mut Vec<u8>,
) -> (r: Result<(), LoadError>)
    ensures
        r is Err <==> barrel_named(barn.barrels@, res_name@) is None || !filter_compiled,
        r is Err ==> r == Err::<(), LoadError>(LoadError::SearchError) && final(target)@ == old(target)@,
        r is Ok ==> final(target)@ == old(target)@ + framed(messages@),
{
    match barn.search(res_name, filter_compiled) {
        Ok(_) => {},
        Err(_) => {
            return Err(LoadError::SearchError);
        },
    }
    let mut i: usize = 0;
    assert(messages@.subrange(0, 0) =~= Seq::<Option<Vec<u8>>>::empty());
    while i < messages.len()
        invariant
            i <= messages@.len(),
            target@ == old(target)@ + framed(messages@.subrange(0, i as int)),
        decreases messages@.len() - i,
    {
        let ghost pre = messages@.subrange(0, i as int);
        let ghost next = messages@.subrange(0, i + 1);
        assert(next.drop_last() =~= pre);
        assert(next.last() == messages@[i as int]);
        match &messages[i] {
            Some(d) => {
                write_record(target, d);
            },
            None => {},
        }
        assert(target@ =~= old(target)@ + framed(next));
        i = i + 1;
    }
    assert(messages@.subrange(0, i as int) =~= messages@);
    Ok(())
}

/// Appends one received document to the output, followed by a newline.
pub fn write_record(target: &mut Vec<u8>, d: &Vec<u8>)
    ensures
        final(target)@ == old(target)@ + d@ + seq![10u8],
{
    let mut i: usize = 0;
    while i < d.len()
        invariant
            i <= d@.len(),
            target@ == old(target)@ + d@.subrange(0, i as int),
        decreases d@.len() - i,
    {
        target.push(d[i]);
        assert(d@.subrange(0, i + 1) =~= d@.subrange(0, i as int).push(d@[i as int]));
        i = i + 1;
    }
    assert(d@.subrange(0, i as int) =~= d@);
    target.push(10u8);
}

/// A scan that has stopped, because the consumer went away or for any
/// other reason, sends nothing more, whatever rows remain.
pub proof fn lemma_cancelled_scan_stops(rows: Seq<(Seq<u8>, RowStatus)>)
    ensures
        sends(true, rows) == 0,
    decreases rows.len(),
{
    if rows.len() > 0 {
        lemma_cancelled_scan_stops(rows.drop_first());
    }
}

/// Rows that all decode and match, none at the counter's key, are all sent.
proof fn lemma_scan_sends_all(rows: Seq<(Seq<u8>, RowStatus)>)
    requires
        forall|j: int| 0 <= j < rows.len() ==> (#[trigger] rows[j]).1 == RowStatus::Match && rows[j].0 != le64(0),
    ensures
        sends(false, rows) == rows.len(),
    decreases rows.len(),
{
    if rows.len() > 0 {
        assert forall|j: int| 0 <= j < rows.drop_first().len() implies (#[trigger] rows.drop_first()[j]).1
            == RowStatus::Match && rows.drop_first()[j].0 != le64(0) by {
            assert(rows.drop_first()[j] == rows[j + 1]);
        };
        lemma_scan_sends_all(rows.drop_first());
    }
}

/// A scan of a barrel holding the counter row and N documents, at the keys
/// of ids 1 and up, sends exactly N documents under the filter that
/// matches everything.
pub proof fn lemma_scan_skips_sentinel(counter: RowStatus, docs: Seq<(u64, RowStatus)>)
    requires
        forall|j: int| 0 <= j < docs.len() ==> (#[trigger] docs[j]).0 >= 1 && docs[j].1 == RowStatus::Match,
    ensures
        sends(false, seq![(le64(0), counter)] + docs.map_values(|d: (u64, RowStatus)| (le64(d.0), d.1)))
            == docs.len(),
{
    let rows = docs.map_values(|d: (u64, RowStatus)| (le64(d.0), d.1));
    let all = seq![(le64(0), counter)] + rows;
    assert forall|j: int| 0 <= j < rows.len() implies (#[trigger] rows[j]).1 == RowStatus::Match && rows[j].0
        != le64(0) by {
        lemma_le64_injective(docs[j].0, 0);
    };
    lemma_scan_sends_all(rows);
    assert(all.drop_first() =~= rows);
}

} // verus!
