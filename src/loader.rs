//! The bulk loader: newline-delimited records cut out of successive reads,
//! and what each record leads to.
use vstd::prelude::*;
use crate::barn::{barrel_named, Barn};
use crate::errors::{BarnError, LoadError};

verus! {

/// The newline byte that ends each record.
pub const NEWLINE: u8 = 10;

/// `s` cut at each newline: one more part than there are newlines.
pub open spec fn split_lines(s: Seq<u8>) -> Seq<Seq<u8>>
    decreases s.len(),
{
    if s.len() == 0 {
        seq![Seq::empty()]
    } else {
        let r = split_lines(s.drop_last());
        if s.last() == NEWLINE {
            r.push(Seq::empty())
        } else {
            r.update(r.len() - 1, r.last().push(s.last()))
        }
    }
}

pub open spec fn byte_views(v: Seq<Vec<u8>>) -> Seq<Seq<u8>> {
    v.map_values(|x: Vec<u8>| x@)
}

/// Cuts records out of successive reads. `residue` holds the bytes read
/// since the last newline: the start of a record that the next read ends.
pub struct LineSplitter {
    pub residue: Vec<u8>,
}

impl LineSplitter {
    /// The residue holds no newline.
    pub open spec fn wf(&self) -> bool {
        forall|j: int| 0 <= j < self.residue@.len() ==> self.residue@[j] != NEWLINE
    }

    pub fn new() -> (r: LineSplitter)
        ensures
            r.residue@.len() == 0,
            r.wf(),
    {
        LineSplitter { residue: Vec::new() }
    }

    /// The records that `chunk` completes, without their newlines; the
    /// bytes after the last newline stay as the residue.
    pub fn feed(&mut self, chunk: &Vec<u8>) -> (lines: Vec<Vec<u8>>)
        requires
            old(self).wf(),
        ensures
            final(self).wf(),
            byte_views(lines@).push(final(self).residue@) == split_lines(old(self).residue@ + chunk@),
    {
        let ghost start = self.residue@;
        let mut lines: Vec<Vec<u8>> = Vec::new();
        let mut i: usize = 0;
        proof {
            let s0 = start + chunk@.subrange(0, 0);
            assert(s0 =~= start);
            lemma_split_lines_prefix(start);
            assert(split_lines(start) == seq![start]);
            assert(byte_views(lines@) =~= Seq::<Seq<u8>>::empty());
        }
        while i < chunk.len()
            invariant
                i <= chunk@.len(),
                self.wf(),
                byte_views(lines@).push(self.residue@) == split_lines(start + chunk@.subrange(0, i as int)),
            decreases chunk@.len() - i,
        {
            let b = chunk[i];
            let ghost pre = start + chunk@.subrange(0, i as int);
            let ghost next = start + chunk@.subrange(0, i + 1);
            assert(next =~= pre.push(b));
            assert(next.drop_last() =~= pre);
            if b == NEWLINE {
                let mut line: Vec<u8> = Vec::new();
                core::mem::swap(&mut line, &mut self.residue);
                let ghost ls = lines@;
                lines.push(line);
                assert(byte_views(lines@) =~= byte_views(ls).push(line@));
                assert(byte_views(lines@).push(self.residue@) =~= split_lines(pre).push(Seq::empty()));
            } else {
                let ghost r = split_lines(pre);
                let ghost res = self.residue@;
                self.residue.push(b);
                assert(byte_views(lines@).push(self.residue@) =~= r.update(r.len() - 1, r.last().push(b)));
            }
            i = i + 1;
        }
        assert(chunk@.subrange(0, i as int) =~= chunk@);
        lines
    }
}

/// Cutting an unbroken run gives the run itself as the one part.
proof fn lemma_split_lines_prefix(s: Seq<u8>)
    ensures
        (forall|j: int| 0 <= j < s.len() ==> s[j] != NEWLINE) ==> split_lines(s) == seq![s],
    decreases s.len(),
{
    if s.len() > 0 {
        lemma_split_lines_prefix(s.drop_last());
        if forall|j: int| 0 <= j < s.len() ==> s[j] != NEWLINE {
            assert(forall|j: int| 0 <= j < s.drop_last().len() ==> s.drop_last()[j] == s[j]);
            assert(s.drop_last().push(s.last()) =~= s);
        }
    } else {
        assert(s =~= Seq::<u8>::empty());
    }
}

/// The last part of a cut holds no newline.
proof fn lemma_split_lines_last(s: Seq<u8>)
    ensures
        split_lines(s).len() >= 1,
        forall|j: int| 0 <= j < split_lines(s).last().len() ==> split_lines(s).last()[j] != NEWLINE,
    decreases s.len(),
{
    if s.len() > 0 {
        lemma_split_lines_last(s.drop_last());
        let r = split_lines(s.drop_last());
        if s.last() != NEWLINE {
            let l = r.last().push(s.last());
            assert(split_lines(s).last() == l);
            assert forall|j: int| 0 <= j < l.len() implies l[j] != NEWLINE by {
                if j < r.last().len() {
                    assert(l[j] == r.last()[j]);
                }
            };
        }
    }
}

/// Cutting `x + y` is cutting `x`, then cutting its unfinished last part
/// followed by `y`.
proof fn lemma_split_lines_concat(x: Seq<u8>, y: Seq<u8>)
    ensures
        split_lines(x + y) == split_lines(x).drop_last() + split_lines(split_lines(x).last() + y),
    decreases y.len(),
{
    lemma_split_lines_last(x);
    let sx = split_lines(x);
    if y.len() == 0 {
        assert(x + y =~= x);
        assert(sx.last() + y =~= sx.last());
        lemma_split_lines_prefix(sx.last());
        assert(sx.drop_last() + seq![sx.last()] =~= sx);
    } else {
        let y1 = y.drop_last();
        let c = y.last();
        lemma_split_lines_concat(x, y1);
        let t = split_lines(sx.last() + y1);
        lemma_split_lines_last(sx.last() + y1);
        assert((x + y).drop_last() =~= x + y1);
        assert((x + y).last() == c);
        assert((sx.last() + y).drop_last() =~= sx.last() + y1);
        assert((sx.last() + y).last() == c);
        let d = sx.drop_last();
        if c == NEWLINE {
            assert((d + t).push(Seq::empty()) =~= d + t.push(Seq::empty()));
        } else {
            let dt = d + t;
            assert(dt.update(dt.len() - 1, dt.last().push(c)) =~= d + t.update(t.len() - 1, t.last().push(c)));
        }
    }
}

/// Feeding two reads one after the other gives the records, and the
/// residue, that one read of both would give: a record split across reads
/// comes out whole.
pub proof fn lemma_feed_in_pieces(
    r: Seq<u8>,
    a: Seq<u8>,
    b: Seq<u8>,
    lines1: Seq<Seq<u8>>,
    r1: Seq<u8>,
    lines2: Seq<Seq<u8>>,
    r2: Seq<u8>,
)
    requires
        lines1.push(r1) == split_lines(r + a),
        lines2.push(r2) == split_lines(r1 + b),
    ensures
        (lines1 + lines2).push(r2) == split_lines(r + a + b),
{
    lemma_split_lines_concat(r + a, b);
    assert(split_lines(r + a).drop_last() =~= lines1);
    assert(split_lines(r + a).last() == r1);
    assert((lines1 + lines2).push(r2) =~= lines1 + lines2.push(r2));
}

/// What the loader does next.
#[derive(Debug, Clone, Copy, PartialEq, Eq, Structural)]
pub enum LoadStep {
    Continue,
    Fail(LoadError),
}

/// A bulk load in progress: how many records went in and how many were
/// skipped as unreadable.
pub struct Loader {
    pub ignore_errors: bool,
    pub inserted: u64,
    pub skipped: u64,
}

impl Loader {
    pub fn new(ignore_errors: bool) -> (r: Loader)
        ensures
            r.ignore_errors == ignore_errors,
            r.inserted == 0,
            r.skipped == 0,
    {
        Loader { ignore_errors, inserted: 0, skipped: 0 }
    }

    /// A record that is not JSON: skipped where errors are ignored, else
    /// the load fails with `InvalidRecord`.
    pub fn on_unreadable(&mut self) -> (r: LoadStep)
        ensures
            final(self).ignore_errors == old(self).ignore_errors,
            final(self).inserted == old(self).inserted,
            old(self).ignore_errors ==> r == LoadStep::Continue && final(self).skipped as int == if old(
                self,
            ).skipped == u64::MAX {
                old(self).skipped as int
            } else {
                old(self).skipped + 1
            },
            !old(self).ignore_errors ==> r == LoadStep::Fail(LoadError::InvalidRecord) && final(self).skipped
                == old(self).skipped,
    {
        if self.ignore_errors {
            if self.skipped < 0xFFFF_FFFF_FFFF_FFFFu64 {
                self.skipped = self.skipped + 1;
            }
            LoadStep::Continue
        } else {
            LoadStep::Fail(LoadError::InvalidRecord)
        }
    }

    /// The outcome of inserting a record: a failed insert ends the load,
    /// whether errors are ignored or not.
    pub fn on_inserted(&mut self, res: Result<(), BarnError>) -> (r: LoadStep)
        ensures
            final(self).ignore_errors == old(self).ignore_errors,
            final(self).skipped == old(self).skipped,
            res matches Err(e) ==> r == LoadStep::Fail(LoadError::InsertionError(e)) && final(self).inserted
                == old(self).inserted,
            res is Ok ==> r == LoadStep::Continue && final(self).inserted as int == if old(self).inserted
                == u64::MAX {
                old(self).inserted as int
            } else {
                old(self).inserted + 1
            },
    {
        match res {
            Err(e) => LoadStep::Fail(LoadError::InsertionError(e)),
            Ok(()) => {
                if self.inserted < 0xFFFF_FFFF_FFFF_FFFFu64 {
                    self.inserted = self.inserted + 1;
                }
                LoadStep::Continue
            },
        }
    }
}

/// Starts a bulk load into resource `res_name`: `InsertionError` with
/// `UnknownResourceName` where there is no such resource.
pub fn _load_data(barn: &Barn, res_name: &str, ignore_errors: bool) -> (r: Result<Loader, LoadError>)
    ensures
        barrel_named(barn.barrels@, res_name@) is None ==> r == Err::<Loader, LoadError>(
            LoadError::InsertionError(BarnError::UnknownResourceName),
        ),
        barrel_named(barn.barrels@, res_name@) is Some ==> (r matches Ok(l) && l.ignore_errors
            == ignore_errors && l.inserted == 0 && l.skipped == 0),
{
    match barn.barrel(res_name) {
        None => Err(LoadError::InsertionError(BarnError::UnknownResourceName)),
        Some(_) => Ok(Loader::new(ignore_errors)),
    }
}

} // verus!
