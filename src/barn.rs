//! The catalog: one barrel per configured resource, built from the
//! configuration and the JSON Schema, and the entry points by resource name.
use vstd::prelude::*;
use vstd::string::*;
use crate::barrel::{insert_outcome, opt_view, Barrel, Fetched, InsertPlan};
use crate::conf::{DbConf, IndexConf, ResourceConf, ResourceDefaults};
use crate::errors::BarnError;
use crate::index::Index;
use crate::json::{lookup, JsonValue};
use crate::schema::{resolve_attr, resolve_attr_type};
use crate::text::{lower_of, lowercase, split, split_on, views};

verus! {

/// The catalog: the barrels by resource name, and the schema they were
/// built from.
pub struct Barn {
    pub barrels: Vec<(String, Barrel)>,
    pub schema: JsonValue,
}

/// The definition of resource `rname`: `/definitions/<rname>`, else the
/// shared `/properties`.
pub open spec fn res_def_of(schema: JsonValue, rname: Seq<char>) -> Option<JsonValue> {
    match lookup(schema, seq!["definitions"@, rname]) {
        Some(d) => Some(d),
        None => lookup(schema, seq!["properties"@]),
    }
}

/// The type of the index `ic` of resource `rname` can be resolved.
pub open spec fn index_resolves(schema: JsonValue, rname: Seq<char>, ic: IndexConf) -> bool {
    res_def_of(schema, rname) matches Some(rd) && resolve_attr(schema, rd, ic.attr_path@) is Some
}

/// `ix` is the index that `ic` declares on resource `rname`.
pub open spec fn index_built(schema: JsonValue, rname: Seq<char>, ic: IndexConf, ix: Index) -> bool {
    &&& res_def_of(schema, rname) matches Some(rd) && resolve_attr(schema, rd, ic.attr_path@) == Some(
        (ix.val_type@, ix.val_format@),
    )
    &&& ix.name@ == lower_of(rname) + "_"@ + ic.attr_path@
    &&& views(ix.at_path@) == split_on(ic.attr_path@, '.')
    &&& ix.unique == (ic.unique == Some(true))
}

/// The configured value where there is a non-empty one, else the default.
pub open spec fn chosen(o: Option<String>, d: String) -> Seq<char> {
    match o {
        Some(s) => if s@.len() > 0 {
            s@
        } else {
            d@
        },
        None => d@,
    }
}

/// `b` is the barrel that `rc` configures for resource `rname`.
pub open spec fn barrel_built(schema: JsonValue, defaults: ResourceDefaults, rname: Seq<char>, rc: ResourceConf, b: Barrel) -> bool {
    &&& b.name@ == lower_of(rname)
    &&& b.id_attr_name@ == chosen(rc.id_attr_name, defaults.id_attr_name)
    &&& b.id_attr_type@ == chosen(rc.id_attr_type, defaults.id_attr_type)
    &&& b.indices@.len() == rc.indices@.len()
    &&& forall|i: int| 0 <= i < b.indices@.len() ==> index_built(schema, rname, rc.indices@[i], #[trigger] b.indices@[i])
}

/// Every index of every configured resource resolves.
pub open spec fn conf_resolves(conf: DbConf, schema: JsonValue) -> bool {
    forall|r: int, i: int|
        0 <= r < conf.resources@.len() && 0 <= i < conf.resources@[r].1.indices@.len() ==> index_resolves(
            schema,
            conf.resources@[r].0@,
            #[trigger] conf.resources@[r].1.indices@[i],
        )
}

/// The barrel named `n`: the last of that name.
pub open spec fn barrel_named(bs: Seq<(String, Barrel)>, n: Seq<char>) -> Option<Barrel>
    decreases bs.len(),
{
    if bs.len() == 0 {
        None
    } else if bs.last().0@ == n {
        Some(bs.last().1)
    } else {
        barrel_named(bs.drop_last(), n)
    }
}

fn res_def<'a>(schema: &'a JsonValue, rname: &String) -> (r: Option<&'a JsonValue>)
    ensures
        r matches Some(d) ==> res_def_of(*schema, rname@) == Some(*d),
        r is None ==> res_def_of(*schema, rname@) is None,
{
    let mut p: Vec<String> = Vec::new();
    p.push(String::from_str("definitions"));
    p.push(rname.clone());
    assert(views(p@) =~= seq!["definitions"@, rname@]);
    match schema.pointer(&p) {
        Some(d) => Some(d),
        None => {
            let mut q: Vec<String> = Vec::new();
            q.push(String::from_str("properties"));
            assert(views(q@) =~= seq!["properties"@]);
            schema.pointer(&q)
        },
    }
}

fn build_index(schema: &JsonValue, rname: &String, ic: &IndexConf) -> (r: Result<Index, BarnError>)
    ensures
        r matches Ok(ix) ==> index_built(*schema, rname@, *ic, ix),
        r is Err ==> !index_resolves(*schema, rname@, *ic) && r == Err::<Index, BarnError>(
            BarnError::DbConfigError,
        ),
{
    let rd = match res_def(schema, rname) {
        Some(d) => d,
        None => {
            return Err(BarnError::DbConfigError);
        },
    };
    let (val_type, val_format) = match resolve_attr_type(schema, rd, &ic.attr_path) {
        Ok(tf) => tf,
        Err(e) => {
            return Err(e);
        },
    };
    let mut name = lowercase(rname.as_str());
    name.append("_");
    name.append(ic.attr_path.as_str());
    let unique = match ic.unique {
        Some(u) => u,
        None => false,
    };
    Ok(Index { name, unique, at_path: split(ic.attr_path.as_str(), '.'), val_type, val_format })
}

fn chosen_exec(o: &Option<String>, d: &String) -> (r: String)
    ensures
        r@ == chosen(*o, *d),
{
    match o {
        Some(s) => {
            if s.as_str().unicode_len() > 0 {
                s.clone()
            } else {
                d.clone()
            }
        },
        None => d.clone(),
    }
}

fn build_barrel(schema: &JsonValue, defaults: &ResourceDefaults, rname: &String, rc: &ResourceConf) -> (r: Result<
    Barrel,
    BarnError,
>)
    ensures
        r matches Ok(b) ==> barrel_built(*schema, *defaults, rname@, *rc, b),
        r is Err ==> (exists|i: int|
            0 <= i < rc.indices@.len() && !index_resolves(*schema, rname@, #[trigger] rc.indices@[i]))
            && r == Err::<Barrel, BarnError>(BarnError::DbConfigError),
{
    let mut indices: Vec<Index> = Vec::new();
    let mut i: usize = 0;
    while i < rc.indices.len()
        invariant
            i <= rc.indices@.len(),
            indices@.len() == i,
            forall|j: int| 0 <= j < i ==> index_built(*schema, rname@, rc.indices@[j], #[trigger] indices@[j]),
        decreases rc.indices@.len() - i,
    {
        match build_index(schema, rname, &rc.indices[i]) {
            Ok(ix) => {
                indices.push(ix);
            },
            Err(e) => {
                assert(!index_resolves(*schema, rname@, rc.indices@[i as int]));
                return Err(e);
            },
        }
        i = i + 1;
    }
    Ok(Barrel {
        name: lowercase(rname.as_str()),
        id_attr_name: chosen_exec(&rc.id_attr_name, &defaults.id_attr_name),
        id_attr_type: chosen_exec(&rc.id_attr_type, &defaults.id_attr_type),
        indices,
    })
}

impl Barn {
    /// Builds the catalog: one barrel per configured resource, in the
    /// order of the configuration, each index typed from the schema.
    /// `DbConfigError` where no resource is configured, or where the schema
    /// gives the type of an index neither under the resource's definition
    /// nor under the shared properties.
    pub fn open(db_conf: &DbConf, schema: JsonValue) -> (r: Result<Barn, BarnError>)
        ensures
            r is Ok <==> db_conf.resources@.len() > 0 && conf_resolves(*db_conf, schema),
            r is Err ==> r == Err::<Barn, BarnError>(BarnError::DbConfigError),
            r matches Ok(barn) ==> barn.schema == schema && barn.barrels@.len() == db_conf.resources@.len()
                && forall|i: int|
                0 <= i < barn.barrels@.len() ==> (#[trigger] barn.barrels@[i]).0@ == db_conf.resources@[i].0@
                    && barrel_built(
                    schema,
                    db_conf.resource_defaults,
                    db_conf.resources@[i].0@,
                    db_conf.resources@[i].1,
                    barn.barrels@[i].1,
                ),
    {
        if db_conf.resources.len() == 0 {
            return Err(BarnError::DbConfigError);
        }
        let mut barrels: Vec<(String, Barrel)> = Vec::new();
        let mut r: usize = 0;
        while r < db_conf.resources.len()
            invariant
                r <= db_conf.resources@.len(),
                barrels@.len() == r,
                forall|k: int, i: int|
                    0 <= k < r && 0 <= i < db_conf.resources@[k].1.indices@.len() ==> index_resolves(
                        schema,
                        db_conf.resources@[k].0@,
                        #[trigger] db_conf.resources@[k].1.indices@[i],
                    ),
                forall|k: int|
                    0 <= k < r ==> (#[trigger] barrels@[k]).0@ == db_conf.resources@[k].0@ && barrel_built(
                        schema,
                        db_conf.resource_defaults,
                        db_conf.resources@[k].0@,
                        db_conf.resources@[k].1,
                        barrels@[k].1,
                    ),
            decreases db_conf.resources@.len() - r,
        {
            let entry = &db_conf.resources[r];
            match build_barrel(&schema, &db_conf.resource_defaults, &entry.0, &entry.1) {
                Ok(b) => {
                    proof {
                        assert forall|i: int| 0 <= i < entry.1.indices@.len() implies index_resolves(
                            schema,
                            entry.0@,
                            #[trigger] entry.1.indices@[i],
                        ) by {
                            assert(index_built(schema, entry.0@, entry.1.indices@[i], b.indices@[i]));
                        };
                    }
                    barrels.push((entry.0.clone(), b));
                },
                Err(e) => {
                    return Err(e);
                },
            }
            r = r + 1;
        }
        Ok(Barn { barrels, schema })
    }

    /// The barrel of resource `res_name`.
    pub fn barrel(&self, res_name: &str) -> (r: Option<&Barrel>)
        ensures
            r matches Some(b) ==> barrel_named(self.barrels@, res_name@) == Some(*b),
            r is None ==> barrel_named(self.barrels@, res_name@) is None,
    {
        let mut i: usize = self.barrels.len();
        assert(self.barrels@.subrange(0, i as int) =~= self.barrels@);
        while i > 0
            invariant
                i <= self.barrels@.len(),
                barrel_named(self.barrels@, res_name@) == barrel_named(self.barrels@.subrange(0, i as int), res_name@),
            decreases i,
        {
            let ghost pre = self.barrels@.subrange(0, i as int);
            assert(pre.drop_last() =~= self.barrels@.subrange(0, i - 1));
            assert(pre.last() == self.barrels@[i - 1]);
            if str_eq(self.barrels[i - 1].0.as_str(), res_name) {
                return Some(&self.barrels[i - 1].1);
            }
            i = i - 1;
        }
        None
    }

    /// Plans the insert of `r` into resource `res_name`, given its counter
    /// row: `UnknownResourceName` where there is no such resource, else as
    /// the barrel's insert.
    pub fn insert(&self, res_name: &str, counter: &Option<Vec<u8>>, r: &mut JsonValue) -> (res: Result<
        InsertPlan,
        BarnError,
    >)
        ensures
            barrel_named(self.barrels@, res_name@) is None ==> res == Err::<InsertPlan, BarnError>(
                BarnError::UnknownResourceName,
            ) && *final(r) == *old(r),
            barrel_named(self.barrels@, res_name@) matches Some(b) ==> insert_outcome(
                b,
                opt_view(*counter),
                *old(r),
                *final(r),
                res,
            ),
    {
        match self.barrel(res_name) {
            None => Err(BarnError::UnknownResourceName),
            Some(b) => b.insert(counter, r),
        }
    }

    /// The document with id `id` of resource `res_name`, from what the
    /// lookup of its key found.
    pub fn get(&self, id: u64, res_name: &str, fetched: Fetched) -> (r: Result<JsonValue, BarnError>)
        ensures
            barrel_named(self.barrels@, res_name@) is None ==> r == Err::<JsonValue, BarnError>(
                BarnError::UnknownResourceName,
            ),
            barrel_named(self.barrels@, res_name@) is Some ==> (id == 0 ==> r == Err::<JsonValue, BarnError>(
                BarnError::ResourceNotFoundError,
            )) && (id != 0 ==> match fetched {
                Fetched::Missing => r == Err::<JsonValue, BarnError>(BarnError::ResourceNotFoundError),
                Fetched::Undecodable => r == Err::<JsonValue, BarnError>(BarnError::DeSerializationError),
                Fetched::Doc(d) => r == Ok::<JsonValue, BarnError>(d),
            }),
    {
        match self.barrel(res_name) {
            None => Err(BarnError::UnknownResourceName),
            Some(b) => b.get(id, fetched),
        }
    }
}

/// Whether two texts are equal.
pub fn str_eq(a: &str, b: &str) -> (r: bool)
    ensures
        r == (a@ == b@),
{
    let n = a.unicode_len();
    if n != b.unicode_len() {
        return false;
    }
    let mut i: usize = 0;
    while i < n
        invariant
            n == a@.len(),
            n == b@.len(),
            i <= n,
            a@.subrange(0, i as int) == b@.subrange(0, i as int),
        decreases n - i,
    {
        if a.get_char(i) != b.get_char(i) {
            return false;
        }
        assert(a@.subrange(0, i + 1) =~= a@.subrange(0, i as int).push(a@[i as int]));
        assert(b@.subrange(0, i + 1) =~= b@.subrange(0, i as int).push(b@[i as int]));
        i = i + 1;
    }
    assert(a@ =~= a@.subrange(0, n as int));
    assert(b@ =~= b@.subrange(0, n as int));
    true
}

} // verus!
