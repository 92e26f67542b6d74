//! One resource partition: id allocation, id stamping and the writes of an
//! insert, and the engine's behaviour that those writes rely on.
use vstd::prelude::*;
use vstd::string::*;
use crate::codec::{enc_pk, from_le_bytes, le64, le_value, lemma_pk_round_trip};
use crate::errors::BarnError;
use crate::index::{index_key, Index};
use crate::json::{lookup, member, without_member, JsonValue};
use crate::text::{decimal, decimal_of, views};

verus! {

/// A resource partition: the primary sub-database `name` holds each
/// document at the key of its id and the last id given at the key of 0;
/// `indices` are its secondary indices.
pub struct Barrel {
    pub name: String,
    pub id_attr_name: String,
    pub id_attr_type: String,
    pub indices: Vec<Index>,
}

/// One write into a secondary index: `key` maps to `value`, the key of a
/// document id. A unique index refuses a key it holds already; another
/// keeps each `(key, value)` pair once.
pub struct IndexWrite {
    pub index: String,
    pub key: Vec<u8>,
    pub value: Vec<u8>,
    pub unique: bool,
}

/// The writes of one insert, made in one transaction in this order: the
/// index writes, the document at `primary_key` (refused where that key is
/// taken), then `counter_value` at `counter_key` (overwriting).
pub struct InsertPlan {
    pub pk: u64,
    pub index_writes: Vec<IndexWrite>,
    pub primary_key: Vec<u8>,
    pub counter_key: Vec<u8>,
    pub counter_value: Vec<u8>,
}

/// What a point lookup in the primary sub-database found.
pub enum Fetched {
    Missing,
    Undecodable,
    Doc(JsonValue),
}

pub open spec fn opt_view(c: Option<Vec<u8>>) -> Option<Seq<u8>> {
    match c {
        Some(v) => Some(v@),
        None => None,
    }
}

/// The id the next insert gets, from the counter row: 1 where there is
/// none, else one more than the id it holds.
pub open spec fn next_pk(counter: Option<Seq<u8>>) -> Result<u64, BarnError> {
    match counter {
        None => Ok(1),
        Some(b) => if b.len() < 8 {
            Err(BarnError::TxReadError)
        } else if le_value(b.subrange(0, 8)) >= u64::MAX {
            Err(BarnError::TxWriteError)
        } else {
            Ok((le_value(b.subrange(0, 8)) + 1) as u64)
        },
    }
}

/// `v` is the id value stamped for `pk`: its decimal text where the id
/// attribute is of type `string`, else the integer itself.
pub open spec fn id_matches(id_type: Seq<char>, pk: u64, v: JsonValue) -> bool {
    if id_type == "string"@ {
        v matches JsonValue::Str(s) && s@ == decimal_of(pk as nat)
    } else {
        v == JsonValue::UInt(pk)
    }
}

/// `after` is `before` with its id attribute replaced by the id `pk`: any
/// member of that name is dropped, and the id comes last.
pub open spec fn stamped(b: Barrel, before: JsonValue, after: JsonValue, pk: u64) -> bool {
    &&& before is Object
    &&& after is Object
    &&& after->Object_0@.len() > 0
    &&& after->Object_0@.drop_last() == without_member(before->Object_0@, b.id_attr_name@)
    &&& after->Object_0@.last().0@ == b.id_attr_name@
    &&& id_matches(b.id_attr_type@, pk, after->Object_0@.last().1)
}

pub open spec fn write_views(ws: Seq<IndexWrite>) -> Seq<(Seq<char>, Seq<u8>, bool)> {
    ws.map_values(|w: IndexWrite| (w.index@, w.key@, w.unique))
}

/// The index writes for document `d` with id `pk`, index by index: an
/// index whose attribute is absent, or not of its type, gets none.
pub open spec fn index_writes_of(ixs: Seq<Index>, d: JsonValue) -> Result<
    Seq<(Seq<char>, Seq<u8>, bool)>,
    BarnError,
>
    decreases ixs.len(),
{
    if ixs.len() == 0 {
        Ok(Seq::empty())
    } else {
        match index_writes_of(ixs.drop_last(), d) {
            Err(e) => Err(e),
            Ok(ws) => {
                let ix = ixs.last();
                match lookup(d, views(ix.at_path@)) {
                    None => Ok(ws),
                    Some(v) => match index_key(ix.val_type@, ix.val_format@, v) {
                        Err(e) => Err(e),
                        Ok(None) => Ok(ws),
                        Ok(Some(k)) => Ok(ws.push((ix.name@, k, ix.unique))),
                    },
                }
            },
        }
    }
}

/// `p` is the plan of inserting `before`, stamped into `after`, into barrel
/// `b` whose counter row is `counter`.
pub open spec fn planned(b: Barrel, counter: Option<Seq<u8>>, before: JsonValue, after: JsonValue, p: InsertPlan) -> bool {
    &&& next_pk(counter) == Ok::<u64, BarnError>(p.pk)
    &&& stamped(b, before, after, p.pk)
    &&& index_writes_of(b.indices@, after) == Ok::<Seq<(Seq<char>, Seq<u8>, bool)>, BarnError>(
        write_views(p.index_writes@),
    )
    &&& forall|j: int| 0 <= j < p.index_writes@.len() ==> (#[trigger] p.index_writes@[j]).value@ == le64(p.pk)
    &&& p.primary_key@ == le64(p.pk)
    &&& p.counter_key@ == le64(0)
    &&& p.counter_value@ == le64(p.pk)
}

/// What an insert into barrel `b` with counter row `counter` returns,
/// `before` being the caller's document and `after` what it is left as.
pub open spec fn insert_outcome(
    b: Barrel,
    counter: Option<Seq<u8>>,
    before: JsonValue,
    after: JsonValue,
    r: Result<InsertPlan, BarnError>,
) -> bool {
    &&& !before.is_object() ==> r == Err::<InsertPlan, BarnError>(BarnError::InvalidResourceDataError)
        && after == before
    &&& before.is_object() && next_pk(counter) is Err ==> r == Err::<InsertPlan, BarnError>(
        next_pk(counter)->Err_0,
    ) && after == before
    &&& before.is_object() && next_pk(counter) is Ok ==> stamped(b, before, after, next_pk(counter)->Ok_0)
    &&& before.is_object() && next_pk(counter) is Ok ==> match index_writes_of(b.indices@, after) {
        Err(e) => r == Err::<InsertPlan, BarnError>(e),
        Ok(_) => r is Ok,
    }
    &&& r matches Ok(p) ==> planned(b, counter, before, after, p)
}

proof fn lemma_writes_err_extends(ixs: Seq<Index>, n: int, d: JsonValue, e: BarnError)
    requires
        0 <= n <= ixs.len(),
        index_writes_of(ixs.subrange(0, n), d) == Err::<Seq<(Seq<char>, Seq<u8>, bool)>, BarnError>(e),
    ensures
        index_writes_of(ixs, d) == Err::<Seq<(Seq<char>, Seq<u8>, bool)>, BarnError>(e),
    decreases ixs.len() - n,
{
    if n < ixs.len() {
        let next = ixs.subrange(0, n + 1);
        assert(next.drop_last() =~= ixs.subrange(0, n));
        lemma_writes_err_extends(ixs, n + 1, d, e);
    } else {
        assert(ixs.subrange(0, n) =~= ixs);
    }
}

impl Barrel {
    /// Plans the insert of `data` given the counter row read in the same
    /// transaction. The id is allocated from the counter, `data` gets it
    /// as its id attribute in place of any value it had, and each index
    /// whose attribute `data` holds gets a write. Fails with
    /// `InvalidResourceDataError` where `data` is not an object, and with
    /// what the counter or an index key fails with.
    pub fn insert(&self, counter: &Option<Vec<u8>>, data: &mut JsonValue) -> (r: Result<InsertPlan, BarnError>)
        ensures
            insert_outcome(*self, opt_view(*counter), *old(data), *final(data), r),
    {
        if !data.is_object_exec() {
            return Err(BarnError::InvalidResourceDataError);
        }
        let pk: u64 = match counter {
            None => 1,
            Some(b) => {
                if b.len() < 8 {
                    return Err(BarnError::TxReadError);
                }
                let c = from_le_bytes(b);
                if c == 0xFFFF_FFFF_FFFF_FFFFu64 {
                    return Err(BarnError::TxWriteError);
                }
                c + 1
            },
        };
        assert(next_pk(opt_view(*counter)) == Ok::<u64, BarnError>(pk));
        let pk_val = if self.id_attr_type == String::from_str("string") {
            JsonValue::Str(decimal(pk))
        } else {
            JsonValue::UInt(pk)
        };
        let ghost before = *data;
        let ghost pkv = pk_val;
        assert(id_matches(self.id_attr_type@, pk, pkv));
        let _dropped = data.set_member(&self.id_attr_name, pk_val);
        assert(data->Object_0@.drop_last() =~= without_member(before->Object_0@, self.id_attr_name@));
        assert(data->Object_0@.last() == (self.id_attr_name, pkv));
        assert(stamped(*self, before, *data, pk));
        let mut writes: Vec<IndexWrite> = Vec::new();
        let mut i: usize = 0;
        assert(self.indices@.subrange(0, 0) =~= Seq::<Index>::empty());
        assert(write_views(writes@) =~= Seq::empty());
        while i < self.indices.len()
            invariant
                i <= self.indices@.len(),
                before == *old(data),
                before.is_object(),
                next_pk(opt_view(*counter)) == Ok::<u64, BarnError>(pk),
                stamped(*self, before, *data, pk),
                index_writes_of(self.indices@.subrange(0, i as int), *data) == Ok::<
                    Seq<(Seq<char>, Seq<u8>, bool)>,
                    BarnError,
                >(write_views(writes@)),
                forall|j: int| 0 <= j < writes@.len() ==> (#[trigger] writes@[j]).value@ == le64(pk),
            decreases self.indices@.len() - i,
        {
            let ix = &self.indices[i];
            let ghost pre = self.indices@.subrange(0, i as int);
            let ghost next = self.indices@.subrange(0, i + 1);
            assert(next.drop_last() =~= pre);
            assert(next.last() == *ix);
            match data.pointer(&ix.at_path) {
                Some(v) => match ix.key_for(v) {
                    Ok(Some(k)) => {
                        let w = IndexWrite { index: ix.name.clone(), key: k, value: enc_pk(pk), unique: ix.unique };
                        let ghost ws = writes@;
                        writes.push(w);
                        assert(write_views(writes@) =~= write_views(ws).push((ix.name@, k@, ix.unique)));
                    },
                    Ok(None) => {},
                    Err(e) => {
                        proof {
                            lemma_writes_err_extends(self.indices@, i + 1, *data, e);
                        }
                        return Err(e);
                    },
                },
                None => {},
            }
            i = i + 1;
        }
        assert(self.indices@.subrange(0, i as int) =~= self.indices@);
        Ok(InsertPlan { pk, index_writes: writes, primary_key: enc_pk(pk), counter_key: enc_pk(0), counter_value: enc_pk(pk) })
    }
}

impl Barrel {
    /// The primary key to look up for id `id`; `ResourceNotFoundError` for
    /// the reserved id 0, which holds the counter.
    pub fn get_key(&self, id: u64) -> (r: Result<Vec<u8>, BarnError>)
        ensures
            id == 0 ==> r == Err::<Vec<u8>, BarnError>(BarnError::ResourceNotFoundError),
            id != 0 ==> (r matches Ok(k) && k@ == le64(id)),
    {
        if id == 0 {
            Err(BarnError::ResourceNotFoundError)
        } else {
            Ok(enc_pk(id))
        }
    }

    /// The document with id `id`, from what the lookup of its key found.
    pub fn get(&self, id: u64, fetched: Fetched) -> (r: Result<JsonValue, BarnError>)
        ensures
            id == 0 ==> r == Err::<JsonValue, BarnError>(BarnError::ResourceNotFoundError),
            id != 0 ==> match fetched {
                Fetched::Missing => r == Err::<JsonValue, BarnError>(BarnError::ResourceNotFoundError),
                Fetched::Undecodable => r == Err::<JsonValue, BarnError>(BarnError::DeSerializationError),
                Fetched::Doc(d) => r == Ok::<JsonValue, BarnError>(d),
            },
    {
        if id == 0 {
            return Err(BarnError::ResourceNotFoundError);
        }
        match fetched {
            Fetched::Missing => Err(BarnError::ResourceNotFoundError),
            Fetched::Undecodable => Err(BarnError::DeSerializationError),
            Fetched::Doc(d) => Ok(d),
        }
    }
}

/// `a` followed by `b`.
fn concat_bytes(a: &Vec<u8>, b: &Vec<u8>) -> (r: Vec<u8>)
    ensures
        r@ == a@ + b@,
{
    let mut r: Vec<u8> = Vec::new();
    let mut i: usize = 0;
    while i < a.len()
        invariant
            i <= a@.len(),
            r@ == a@.subrange(0, i as int),
        decreases a@.len() - i,
    {
        r.push(a[i]);
        assert(a@.subrange(0, i + 1) =~= a@.subrange(0, i as int).push(a@[i as int]));
        i = i + 1;
    }
    let mut j: usize = 0;
    while j < b.len()
        invariant
            j <= b@.len(),
            r@ == a@ + b@.subrange(0, j as int),
        decreases b@.len() - j,
    {
        r.push(b[j]);
        assert(b@.subrange(0, j + 1) =~= b@.subrange(0, j as int).push(b@[j as int]));
        j = j + 1;
    }
    assert(a@.subrange(0, a@.len() as int) =~= a@);
    assert(b@.subrange(0, b@.len() as int) =~= b@);
    r
}

impl IndexWrite {
    /// The row this write puts in its index's sub-database, for an engine
    /// whose keys hold one value each: a unique index maps the key to the
    /// id; another keeps one row per `(key, id)` pair, keyed by both, so
    /// writing the same pair again rewrites the same row.
    pub fn index_row(&self) -> (r: (Vec<u8>, Vec<u8>))
        ensures
            self.unique ==> r.0@ == self.key@,
            !self.unique ==> r.0@ == self.key@ + self.value@,
            r.1@ == self.value@,
    {
        let k = if self.unique {
            concat_bytes(&self.key, &Vec::new())
        } else {
            concat_bytes(&self.key, &self.value)
        };
        proof {
            if self.unique {
                assert(k@ =~= self.key@);
            }
        }
        (k, concat_bytes(&self.value, &Vec::new()))
    }

    /// Whether the write may go ahead, given whether its row's key is
    /// taken already: a unique index refuses a taken key with `TxWriteError`.
    pub fn on_key_read(&self, taken: bool) -> (r: Result<(), BarnError>)
        ensures
            r is Err <==> self.unique && taken,
            r is Err ==> r == Err::<(), BarnError>(BarnError::TxWriteError),
    {
        if self.unique && taken {
            Err(BarnError::TxWriteError)
        } else {
            Ok(())
        }
    }
}

impl InsertPlan {
    /// Whether the document may be written, given whether its key is taken
    /// already: a taken key is refused with `TxWriteError`.
    pub fn on_primary_read(&self, taken: bool) -> (r: Result<(), BarnError>)
        ensures
            r is Err <==> taken,
            r is Err ==> r == Err::<(), BarnError>(BarnError::TxWriteError),
    {
        if taken {
            Err(BarnError::TxWriteError)
        } else {
            Ok(())
        }
    }
}

/// What a barrel's sub-databases hold: the counter row, the documents by
/// id, and the `(index, key, value)` rows of its indices. With `commit`
/// below it is the engine contract that the code carrying out an
/// `InsertPlan` must keep: each refusal decided by `on_key_read` and
/// `on_primary_read` aborts the whole transaction.
pub struct StoreModel {
    pub counter: Option<Seq<u8>>,
    pub docs: Map<u64, JsonValue>,
    pub index_rows: Set<(Seq<char>, Seq<u8>, Seq<u8>)>,
}

pub open spec fn empty_store() -> StoreModel {
    StoreModel { counter: None, docs: Map::empty(), index_rows: Set::empty() }
}

/// A unique index write of `p` meets a key its index holds already.
pub open spec fn clashes(m: StoreModel, p: InsertPlan) -> bool {
    exists|j: int, v: Seq<u8>|
        0 <= j < p.index_writes@.len() && p.index_writes@[j].unique && #[trigger] m.index_rows.contains(
            (#[trigger] p.index_writes@[j].index@, p.index_writes@[j].key@, v),
        )
}

pub open spec fn rows_of(p: InsertPlan) -> Set<(Seq<char>, Seq<u8>, Seq<u8>)> {
    Set::new(
        |r: (Seq<char>, Seq<u8>, Seq<u8>)|
            exists|j: int|
                0 <= j < p.index_writes@.len() && r == (
                    (#[trigger] p.index_writes@[j]).index@,
                    p.index_writes@[j].key@,
                    p.index_writes@[j].value@,
                ),
    )
}

/// The transaction of plan `p` with document `doc`, as the engine contract
/// has it: `None` where a write is refused and the transaction aborts,
/// else what it leaves.
pub open spec fn commit(m: StoreModel, p: InsertPlan, doc: JsonValue) -> Option<StoreModel> {
    if clashes(m, p) || m.docs.contains_key(p.pk) {
        None
    } else {
        Some(
            StoreModel {
                counter: Some(p.counter_value@),
                docs: m.docs.insert(p.pk, doc),
                index_rows: m.index_rows.union(rows_of(p)),
            },
        )
    }
}

/// The store after an attempted insert: an aborted one leaves no trace.
pub open spec fn after_insert(m: StoreModel, p: InsertPlan, doc: JsonValue) -> StoreModel {
    match commit(m, p, doc) {
        Some(m2) => m2,
        None => m,
    }
}

/// A point lookup by id in a snapshot of the store.
pub open spec fn fetch(m: StoreModel, id: u64) -> Result<JsonValue, BarnError> {
    if id != 0 && m.docs.contains_key(id) {
        Ok(m.docs[id])
    } else {
        Err(BarnError::ResourceNotFoundError)
    }
}

/// Whatever id the caller's document carried, the stamped one carries
/// the allocated id under the id attribute, and its other members as they
/// were.
pub proof fn lemma_id_stamp_overrides(b: Barrel, before: JsonValue, after: JsonValue, pk: u64)
    requires
        stamped(b, before, after, pk),
    ensures
        (member(after->Object_0@, b.id_attr_name@) matches Some(v) && id_matches(b.id_attr_type@, pk, v)),
        forall|k: Seq<char>|
            k != b.id_attr_name@ ==> #[trigger] member(after->Object_0@, k) == member(before->Object_0@, k),
{
    let es = after->Object_0@;
    assert(es.len() > 0);
    assert forall|k: Seq<char>| k != b.id_attr_name@ implies #[trigger] member(es, k) == member(
        before->Object_0@,
        k,
    ) by {
        crate::json::lemma_without_member_keeps(before->Object_0@, b.id_attr_name@, k);
    };
}

/// After a committed insert, a lookup of the allocated id in a later
/// snapshot finds the stamped document, whose id attribute is that id.
pub proof fn lemma_insert_then_get(b: Barrel, m: StoreModel, before: JsonValue, after: JsonValue, p: InsertPlan)
    requires
        planned(b, m.counter, before, after, p),
        commit(m, p, after) is Some,
    ensures
        p.pk >= 1,
        fetch(commit(m, p, after)->Some_0, p.pk) == Ok::<JsonValue, BarnError>(after),
        (member(after->Object_0@, b.id_attr_name@) matches Some(v) && id_matches(b.id_attr_type@, p.pk, v)),
{
    lemma_id_stamp_overrides(b, before, after, p.pk);
}

/// Inserts replayed in order from `m`, each planned on the counter that the
/// previous ones left; `None` where one of them aborted.
pub open spec fn replay(b: Barrel, m: StoreModel, steps: Seq<(JsonValue, JsonValue, InsertPlan)>) -> Option<
    StoreModel,
>
    decreases steps.len(),
{
    if steps.len() == 0 {
        Some(m)
    } else {
        match replay(b, m, steps.drop_last()) {
            None => None,
            Some(m1) => {
                let s = steps.last();
                if planned(b, m1.counter, s.0, s.1, s.2) {
                    commit(m1, s.2, s.1)
                } else {
                    None
                }
            },
        }
    }
}

/// After N successful inserts into an empty barrel the ids are 1 to N, in
/// the order of the calls.
pub proof fn lemma_pks_contiguous(b: Barrel, steps: Seq<(JsonValue, JsonValue, InsertPlan)>)
    requires
        replay(b, empty_store(), steps) is Some,
    ensures
        forall|i: int| 0 <= i < steps.len() ==> (#[trigger] steps[i]).2.pk == i + 1,
        replay(b, empty_store(), steps)->Some_0.counter == (if steps.len() == 0 {
            None
        } else {
            Some(le64(steps.len() as u64))
        }),
    decreases steps.len(),
{
    if steps.len() > 0 {
        let prev = steps.drop_last();
        lemma_pks_contiguous(b, prev);
        let m1 = replay(b, empty_store(), prev)->Some_0;
        let s = steps.last();
        assert(planned(b, m1.counter, s.0, s.1, s.2));
        if prev.len() > 0 {
            lemma_pk_round_trip(prev.len() as u64);
        }
        assert(s.2.pk == steps.len());
        assert forall|i: int| 0 <= i < steps.len() implies (#[trigger] steps[i]).2.pk == i + 1 by {
            if i < prev.len() {
                assert(steps[i] == prev[i]);
            }
        };
    }
}

/// A second insert whose value collides with the first on a unique index
/// aborts: the first document stays visible and the counter keeps the id
/// the first one got, so the next insert gets the id after it.
pub proof fn lemma_unique_violation(
    b: Barrel,
    m: StoreModel,
    d1: JsonValue,
    s1: JsonValue,
    first_plan: InsertPlan,
    d2: JsonValue,
    s2: JsonValue,
    second_plan: InsertPlan,
    j1: int,
    j2: int,
)
    requires
        planned(b, m.counter, d1, s1, first_plan),
        commit(m, first_plan, s1) is Some,
        planned(b, commit(m, first_plan, s1)->Some_0.counter, d2, s2, second_plan),
        0 <= j1 < first_plan.index_writes@.len(),
        0 <= j2 < second_plan.index_writes@.len(),
        second_plan.index_writes@[j2].unique,
        second_plan.index_writes@[j2].index@ == first_plan.index_writes@[j1].index@,
        second_plan.index_writes@[j2].key@ == first_plan.index_writes@[j1].key@,
    ensures
        commit(commit(m, first_plan, s1)->Some_0, second_plan, s2) is None,
        after_insert(commit(m, first_plan, s1)->Some_0, second_plan, s2) == commit(m, first_plan, s1)->Some_0,
        fetch(after_insert(commit(m, first_plan, s1)->Some_0, second_plan, s2), first_plan.pk) == Ok::<JsonValue, BarnError>(s1),
        after_insert(commit(m, first_plan, s1)->Some_0, second_plan, s2).counter == Some(le64(first_plan.pk)),
{
    let m1 = commit(m, first_plan, s1)->Some_0;
    let w = first_plan.index_writes@[j1];
    assert(rows_of(first_plan).contains((w.index@, w.key@, w.value@)));
    assert(m1.index_rows.contains((w.index@, w.key@, w.value@)));
    assert(clashes(m1, second_plan));
}

/// Some index of `ixs` named `name` covers an attribute that `d` holds.
pub open spec fn from_present(ixs: Seq<Index>, d: JsonValue, name: Seq<char>) -> bool {
    exists|j: int| 0 <= j < ixs.len() && (#[trigger] ixs[j]).name@ == name && lookup(d, views(ixs[j].at_path@)) is Some
}

/// Each planned index write comes from an index whose attribute the
/// document holds.
proof fn lemma_writes_from_present(ixs: Seq<Index>, d: JsonValue)
    requires
        index_writes_of(ixs, d) is Ok,
    ensures
        forall|k: int|
            0 <= k < index_writes_of(ixs, d)->Ok_0.len() ==> from_present(
                ixs,
                d,
                (#[trigger] index_writes_of(ixs, d)->Ok_0[k]).0,
            ),
    decreases ixs.len(),
{
    if ixs.len() > 0 {
        let prev = ixs.drop_last();
        lemma_writes_from_present(prev, d);
        let ws = index_writes_of(prev, d)->Ok_0;
        let all = index_writes_of(ixs, d)->Ok_0;
        let ix = ixs.last();
        assert(all == ws || (lookup(d, views(ix.at_path@)) is Some && all == ws.push(
            (ix.name@, all.last().1, ix.unique),
        )));
        assert forall|k: int| 0 <= k < all.len() implies from_present(ixs, d, (#[trigger] all[k]).0) by {
            if k < ws.len() {
                assert(all[k] == ws[k]);
                assert(from_present(prev, d, ws[k].0));
                let j = choose|j: int|
                    0 <= j < prev.len() && (#[trigger] prev[j]).name@ == ws[k].0 && lookup(
                        d,
                        views(prev[j].at_path@),
                    ) is Some;
                assert(ixs[j] == prev[j]);
            } else {
                assert(ixs[ixs.len() - 1] == ix);
                assert(all[k].0 == ix.name@);
            }
        };
    }
}

/// A document without the attribute of one of the barrel's indices gets no
/// entry in that index; the insert still goes through where nothing else
/// fails.
pub proof fn lemma_absent_attribute_not_indexed(b: Barrel, counter: Option<Seq<u8>>, before: JsonValue, after: JsonValue, p: InsertPlan, i: int)
    requires
        planned(b, counter, before, after, p),
        0 <= i < b.indices@.len(),
        lookup(after, views(b.indices@[i].at_path@)) is None,
        forall|j: int| 0 <= j < b.indices@.len() && j != i ==> (#[trigger] b.indices@[j]).name@ != b.indices@[i].name@,
    ensures
        forall|k: int| 0 <= k < p.index_writes@.len() ==> (#[trigger] p.index_writes@[k]).index@ != b.indices@[i].name@,
        p.primary_key@ == le64(p.pk),
{
    lemma_writes_from_present(b.indices@, after);
    let ws = index_writes_of(b.indices@, after)->Ok_0;
    assert forall|k: int| 0 <= k < p.index_writes@.len() implies (#[trigger] p.index_writes@[k]).index@
        != b.indices@[i].name@ by {
        assert(ws[k] == write_views(p.index_writes@)[k]);
        assert(from_present(b.indices@, after, ws[k].0));
    };
}

/// Writes into indices that are not unique never make an insert fail, and
/// writing `(key, value)` pairs that an index holds already changes nothing.
pub proof fn lemma_non_unique_idempotent(m: StoreModel, p: InsertPlan, doc: JsonValue)
    requires
        forall|j: int| 0 <= j < p.index_writes@.len() ==> !(#[trigger] p.index_writes@[j]).unique,
        !m.docs.contains_key(p.pk),
    ensures
        commit(m, p, doc) is Some,
        rows_of(p).subset_of(m.index_rows) ==> commit(m, p, doc)->Some_0.index_rows == m.index_rows,
{
    if rows_of(p).subset_of(m.index_rows) {
        assert(m.index_rows.union(rows_of(p)) =~= m.index_rows);
    }
}

} // verus!
