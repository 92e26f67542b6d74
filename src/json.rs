//! The document model: a JSON value as the store's logic reads it.
use vstd::prelude::*;

verus! {

/// A JSON value. Numbers keep the form they were written in: a signed or
/// unsigned 64-bit integer, or the IEEE-754 bit pattern of a double.
/// An object keeps its members in order.
#[derive(Debug)]
pub enum JsonValue {
    Null,
    Bool(bool),
    Int(i64),
    UInt(u64),
    Float(u64),
    Str(String),
    Array(Vec<JsonValue>),
    Object(Vec<(String, JsonValue)>),
}

/// The value of member `k` among `es`: the last member of that name.
pub open spec fn member(es: Seq<(String, JsonValue)>, k: Seq<char>) -> Option<JsonValue>
    decreases es.len(),
{
    if es.len() == 0 {
        None
    } else if es.last().0@ == k {
        Some(es.last().1)
    } else {
        member(es.drop_last(), k)
    }
}

/// The members of `es` but those named `k`, in order.
pub open spec fn without_member(es: Seq<(String, JsonValue)>, k: Seq<char>) -> Seq<(String, JsonValue)>
    decreases es.len(),
{
    if es.len() == 0 {
        Seq::empty()
    } else if es.last().0@ == k {
        without_member(es.drop_last(), k)
    } else {
        without_member(es.drop_last(), k).push(es.last())
    }
}

/// The node reached from `v` by following the member names of `path`.
pub open spec fn lookup(v: JsonValue, path: Seq<Seq<char>>) -> Option<JsonValue>
    decreases path.len(),
{
    if path.len() == 0 {
        Some(v)
    } else {
        match v {
            JsonValue::Object(es) => match member(es@, path[0]) {
                Some(c) => lookup(c, path.drop_first()),
                None => None,
            },
            _ => None,
        }
    }
}

pub proof fn lemma_without_member_keeps(es: Seq<(String, JsonValue)>, k: Seq<char>, j: Seq<char>)
    requires
        j != k,
    ensures
        member(without_member(es, k), j) == member(es, j),
    decreases es.len(),
{
    if es.len() > 0 {
        lemma_without_member_keeps(es.drop_last(), k, j);
        let w = without_member(es.drop_last(), k);
        if es.last().0@ != k {
            assert(w.push(es.last()).drop_last() =~= w);
        }
    }
}

impl JsonValue {
    pub open spec fn is_object(&self) -> bool {
        self is Object
    }

    pub fn is_object_exec(&self) -> (r: bool)
        ensures
            r == self.is_object(),
    {
        match self {
            JsonValue::Object(_) => true,
            _ => false,
        }
    }

    /// The member named `k`, if this is an object that has one.
    pub fn get(&self, k: &String) -> (r: Option<&JsonValue>)
        ensures
            r matches Some(x) ==> self.is_object() && member(self->Object_0@, k@) == Some(*x),
            r is None ==> !self.is_object() || member(self->Object_0@, k@) is None,
    {
        match self {
            JsonValue::Object(es) => {
                let mut i: usize = es.len();
                assert(es@.subrange(0, i as int) =~= es@);
                while i > 0
                    invariant
                        i <= es@.len(),
                        self.is_object(),
                        self->Object_0@ == es@,
                        member(es@, k@) == member(es@.subrange(0, i as int), k@),
                    decreases i,
                {
                    let ghost pre = es@.subrange(0, i as int);
                    assert(pre.drop_last() =~= es@.subrange(0, i - 1));
                    assert(pre.last() == es@[i - 1]);
                    if es[i - 1].0 == *k {
                        return Some(&es[i - 1].1);
                    }
                    i = i - 1;
                }
                None
            },
            _ => None,
        }
    }

    /// The node at `path`, following member names from this value.
    pub fn pointer(&self, path: &Vec<String>) -> (r: Option<&JsonValue>)
        ensures
            r matches Some(x) ==> lookup(*self, path@.map_values(|s: String| s@)) == Some(*x),
            r is None ==> lookup(*self, path@.map_values(|s: String| s@)) is None,
    {
        let ghost names = path@.map_values(|s: String| s@);
        let mut cur: &JsonValue = self;
        let mut i: usize = 0;
        assert(names.subrange(0, names.len() as int) =~= names);
        while i < path.len()
            invariant
                i <= path@.len(),
                names == path@.map_values(|s: String| s@),
                lookup(*self, names) == lookup(*cur, names.subrange(i as int, names.len() as int)),
            decreases path@.len() - i,
        {
            let ghost rest = names.subrange(i as int, names.len() as int);
            assert(rest.drop_first() =~= names.subrange(i + 1, names.len() as int));
            assert(rest[0] == path@[i as int]@);
            match cur.get(&path[i]) {
                Some(c) => {
                    cur = c;
                },
                None => {
                    return None;
                },
            }
            i = i + 1;
        }
        assert(names.subrange(i as int, names.len() as int).len() == 0);
        Some(cur)
    }

    /// Sets member `k` to `x`, dropping any earlier value of it; the new
    /// member comes last. Returns whether a value was dropped. A value that
    /// is not an object is left as it is.
    pub fn set_member(&mut self, k: &String, x: JsonValue) -> (dropped: bool)
        ensures
            old(self).is_object() ==> final(self).is_object()
                && final(self)->Object_0@ == without_member(old(self)->Object_0@, k@).push((*k, x)),
            old(self).is_object() ==> dropped == (member(old(self)->Object_0@, k@) is Some),
            !old(self).is_object() ==> *final(self) == *old(self) && !dropped,
    {
        match self {
            JsonValue::Object(es) => {
                let ghost orig = es@;
                let mut dropped = false;
                let mut i: usize = 0;
                let ghost mut j: int = 0;
                while i < es.len()
                    invariant
                        0 <= j <= orig.len(),
                        i == without_member(orig.subrange(0, j), k@).len(),
                        es@ == without_member(orig.subrange(0, j), k@) + orig.subrange(j, orig.len() as int),
                        dropped == (member(orig.subrange(0, j), k@) is Some),
                    decreases orig.len() - j,
                {
                    let ghost pre = orig.subrange(0, j);
                    let ghost next = orig.subrange(0, j + 1);
                    assert(next.drop_last() =~= pre);
                    assert(es@[i as int] == orig[j]);
                    if es[i].0 == *k {
                        es.remove(i);
                        dropped = true;
                        assert(es@ =~= without_member(next, k@) + orig.subrange(j + 1, orig.len() as int));
                    } else {
                        assert(es@ =~= without_member(next, k@) + orig.subrange(j + 1, orig.len() as int));
                        i = i + 1;
                    }
                    proof {
                        j = j + 1;
                    }
                }
                assert(orig.subrange(0, j) =~= orig);
                assert(es@ =~= without_member(orig, k@));
                es.push((k.clone(), x));
                dropped
            },
            _ => false,
        }
    }
}

} // verus!
