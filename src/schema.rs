//! Reading the JSON Schema: resource names and attribute types.
use vstd::prelude::*;
use vstd::string::*;
use crate::codec::{enc_i64, le_bytes, twos64};
use crate::errors::BarnError;
use crate::json::{lookup, member, JsonValue};
use crate::text::{split, split_on, views};

verus! {

/// The member `k` of `v`, where `v` is an object.
pub open spec fn field(v: JsonValue, k: Seq<char>) -> Option<JsonValue> {
    match v {
        JsonValue::Object(es) => member(es@, k),
        _ => None,
    }
}

/// The text of `v`, where `v` is a string.
pub open spec fn text_of(v: Option<JsonValue>) -> Option<Seq<char>> {
    match v {
        Some(JsonValue::Str(s)) => Some(s@),
        _ => None,
    }
}

pub open spec fn has_prefix(s: Seq<char>, p: Seq<char>) -> bool {
    p.len() <= s.len() && s.subrange(0, p.len() as int) == p
}

/// The resource named by a `{"$ref": "#/definitions/<Name>"}` entry.
pub open spec fn ref_name(v: JsonValue) -> Option<Seq<char>> {
    match text_of(field(v, "$ref"@)) {
        Some(r) => if has_prefix(r, "#/definitions/"@) {
            Some(r.subrange("#/definitions/"@.len() as int, r.len() as int))
        } else {
            None
        },
        None => None,
    }
}

/// The resource names listed under the schema's top-level `oneOf`.
pub open spec fn res_names_of(sc: JsonValue) -> Option<Seq<Seq<char>>> {
    match field(sc, "oneOf"@) {
        Some(JsonValue::Array(items)) => if forall|i: int|
            0 <= i < items@.len() ==> (#[trigger] ref_name(items@[i])) is Some {
            Some(Seq::new(items@.len(), |i: int| ref_name(items@[i])->Some_0))
        } else {
            None
        },
        _ => None,
    }
}

/// `s` without the prefix `p`, if it starts with it.
pub fn strip_prefix(s: &str, p: &str) -> (r: Option<String>)
    ensures
        r matches Some(t) ==> has_prefix(s@, p@) && t@ == s@.subrange(p@.len() as int, s@.len() as int),
        r is None ==> !has_prefix(s@, p@),
{
    let n = s.unicode_len();
    let m = p.unicode_len();
    if m > n {
        return None;
    }
    let mut i: usize = 0;
    while i < m
        invariant
            m <= n,
            n == s@.len(),
            m == p@.len(),
            i <= m,
            s@.subrange(0, i as int) == p@.subrange(0, i as int),
        decreases m - i,
    {
        if s.get_char(i) != p.get_char(i) {
            assert(s@.subrange(0, m as int)[i as int] != p@[i as int]);
            return None;
        }
        assert(s@.subrange(0, i + 1) =~= s@.subrange(0, i as int).push(s@[i as int]));
        assert(p@.subrange(0, i + 1) =~= p@.subrange(0, i as int).push(p@[i as int]));
        i = i + 1;
    }
    assert(p@.subrange(0, m as int) =~= p@);
    Some(s.substring_char(m, n).to_owned())
}

fn ref_name_exec(v: &JsonValue) -> (r: Option<String>)
    ensures
        r matches Some(t) ==> ref_name(*v) == Some(t@),
        r is None ==> ref_name(*v) is None,
{
    match v.get(&String::from_str("$ref")) {
        Some(JsonValue::Str(r)) => strip_prefix(r.as_str(), "#/definitions/"),
        _ => None,
    }
}

/// The resource names that the schema's top-level `oneOf` refers to, in
/// order; `None` where there is no `oneOf` list of such references.
pub fn get_res_names(sc: &JsonValue) -> (r: Option<Vec<String>>)
    ensures
        r matches Some(names) ==> res_names_of(*sc) == Some(views(names@)),
        r is None ==> res_names_of(*sc) is None,
{
    let key = String::from_str("oneOf");
    match sc.get(&key) {
        Some(JsonValue::Array(items)) => {
            assert(field(*sc, "oneOf"@) == Some(JsonValue::Array(*items)));
            let mut names: Vec<String> = Vec::new();
            let mut i: usize = 0;
            while i < items.len()
                invariant
                    i <= items@.len(),
                    field(*sc, "oneOf"@) == Some(JsonValue::Array(*items)),
                    names@.len() == i,
                    forall|j: int| 0 <= j < i ==> ref_name(items@[j]) == Some(#[trigger] names@[j]@),
                decreases items@.len() - i,
            {
                match ref_name_exec(&items[i]) {
                    Some(n) => {
                        names.push(n);
                    },
                    None => {
                        assert(ref_name(items@[i as int]) is None);
                        return None;
                    },
                }
                i = i + 1;
            }
            assert forall|j: int| 0 <= j < items@.len() implies (#[trigger] ref_name(items@[j])) is Some by {
                assert(ref_name(items@[j]) == Some(names@[j]@));
            };
            assert(views(names@) =~= Seq::new(items@.len(), |i: int| ref_name(items@[i])->Some_0));
            Some(names)
        },
        _ => None,
    }
}

/// The `type` of a schema node and its `format`, empty where it has none.
pub open spec fn type_info(n: JsonValue) -> Option<(Seq<char>, Seq<char>)> {
    match text_of(field(n, "type"@)) {
        Some(t) => Some(
            (
                t,
                match text_of(field(n, "format"@)) {
                    Some(f) => f,
                    None => Seq::empty(),
                },
            ),
        ),
        None => None,
    }
}

/// The member names of a JSON pointer such as `/definitions/Date`.
pub open spec fn pointer_names(p: Seq<char>) -> Option<Seq<Seq<char>>> {
    if p.len() == 0 {
        Some(Seq::empty())
    } else if p[0] == '/' {
        Some(split_on(p.drop_first(), '/'))
    } else {
        None
    }
}

/// The type and format of the attribute at the dotted path `attr_path` of a
/// resource definition: read from its node under `properties`, or, where
/// that node has no `type`, from the node its `$ref` points to.
pub open spec fn resolve_attr(schema: JsonValue, res_def: JsonValue, attr_path: Seq<char>) -> Option<
    (Seq<char>, Seq<char>),
> {
    match lookup(res_def, seq!["properties"@] + split_on(attr_path, '.')) {
        Some(n) => match type_info(n) {
            Some(ti) => Some(ti),
            None => match text_of(field(n, "$ref"@)) {
                Some(r) => if r.len() > 0 && r[0] == '#' {
                    match pointer_names(r.drop_first()) {
                        Some(names) => match lookup(schema, names) {
                            Some(m) => type_info(m),
                            None => None,
                        },
                        None => None,
                    }
                } else {
                    None
                },
                None => None,
            },
        },
        None => None,
    }
}

fn type_info_exec(n: &JsonValue) -> (r: Option<(String, String)>)
    ensures
        r matches Some(tf) ==> type_info(*n) == Some((tf.0@, tf.1@)),
        r is None ==> type_info(*n) is None,
{
    match n.get(&String::from_str("type")) {
        Some(JsonValue::Str(t)) => {
            let f = match n.get(&String::from_str("format")) {
                Some(JsonValue::Str(f)) => f.clone(),
                _ => String::new(),
            };
            Some((t.clone(), f))
        },
        _ => None,
    }
}

fn pointer_names_exec(p: &str) -> (r: Option<Vec<String>>)
    ensures
        r matches Some(names) ==> pointer_names(p@) == Some(views(names@)),
        r is None ==> pointer_names(p@) is None,
{
    let n = p.unicode_len();
    if n == 0 {
        let v: Vec<String> = Vec::new();
        assert(views(v@) =~= Seq::<Seq<char>>::empty());
        Some(v)
    } else if p.get_char(0) == '/' {
        let rest = p.substring_char(1, n);
        assert(rest@ =~= p@.drop_first());
        Some(split(rest, '/'))
    } else {
        None
    }
}

/// The type and format of an indexed attribute, as `resolve_attr` states;
/// `DbConfigError` where the schema does not give them.
pub fn resolve_attr_type(schema: &JsonValue, res_def: &JsonValue, attr_path: &String) -> (r: Result<
    (String, String),
    BarnError,
>)
    ensures
        r matches Ok(tf) ==> resolve_attr(*schema, *res_def, attr_path@) == Some((tf.0@, tf.1@)),
        r is Err ==> resolve_attr(*schema, *res_def, attr_path@) is None && r == Err::<
            (String, String),
            BarnError,
        >(BarnError::DbConfigError),
{
    let mut path: Vec<String> = Vec::new();
    path.push(String::from_str("properties"));
    let mut parts = split(attr_path.as_str(), '.');
    let ghost path_head = path@;
    let ghost path_rest = parts@;
    path.append(&mut parts);
    assert(views(path@) =~= seq!["properties"@] + split_on(attr_path@, '.')) by {
        assert(path@ =~= path_head + path_rest);
    };
    match res_def.pointer(&path) {
        Some(n) => match type_info_exec(n) {
            Some(tf) => Ok(tf),
            None => match n.get(&String::from_str("$ref")) {
                Some(JsonValue::Str(r)) => {
                    let len = r.as_str().unicode_len();
                    if len > 0 && r.as_str().get_char(0) == '#' {
                        let rest = r.as_str().substring_char(1, len);
                        assert(rest@ =~= r@.drop_first());
                        match pointer_names_exec(rest) {
                            Some(names) => match schema.pointer(&names) {
                                Some(m) => match type_info_exec(m) {
                                    Some(tf) => Ok(tf),
                                    None => Err(BarnError::DbConfigError),
                                },
                                None => Err(BarnError::DbConfigError),
                            },
                            None => Err(BarnError::DbConfigError),
                        }
                    } else {
                        Err(BarnError::DbConfigError)
                    }
                },
                _ => Err(BarnError::DbConfigError),
            },
        },
        None => Err(BarnError::DbConfigError),
    }
}

/// What `chrono` reads from an RFC 3339 date-time: milliseconds since the
/// Unix epoch, or nothing where the text is not one.
pub uninterp spec fn rfc3339_millis_of(s: Seq<char>) -> Option<i64>;

/// What `chrono` reads from a `%Y-%m-%d %H:%M:%S` date-time taken as UTC:
/// milliseconds since the Unix epoch, or nothing where the text is not one.
pub uninterp spec fn naive_millis_of(s: Seq<char>) -> Option<i64>;

/// Relies on `chrono::DateTime::parse_from_rfc3339` and `timestamp_millis`:
/// the parse depends on the text alone.
#[verifier::external_body]
fn rfc3339_millis(s: &str) -> (r: Option<i64>)
    ensures
        r == rfc3339_millis_of(s@),
{
    match chrono::DateTime::parse_from_rfc3339(s) {
        Ok(d) => Some(d.timestamp_millis()),
        Err(_) => None,
    }
}

/// Relies on `chrono::NaiveDateTime::parse_from_str` with the format
/// `%Y-%m-%d %H:%M:%S`, and on `timestamp_millis` of that time in UTC: the
/// parse depends on the text alone.
#[verifier::external_body]
fn naive_millis(s: &str) -> (r: Option<i64>)
    ensures
        r == naive_millis_of(s@),
{
    match chrono::NaiveDateTime::parse_from_str(s, "%Y-%m-%d %H:%M:%S") {
        Ok(d) => Some(d.and_utc().timestamp_millis()),
        Err(_) => None,
    }
}

/// The key of an RFC 3339 date-time: its milliseconds since the epoch, 8
/// bytes little-endian; `InvalidAttributeValueError` where it does not parse.
pub fn parse_datetime(s: &str) -> (r: Result<Vec<u8>, BarnError>)
    ensures
        r matches Ok(b) ==> rfc3339_millis_of(s@) matches Some(m) && b@ == le_bytes(twos64(m), 8),
        r is Err ==> rfc3339_millis_of(s@) is None && r == Err::<Vec<u8>, BarnError>(
            BarnError::InvalidAttributeValueError,
        ),
{
    match rfc3339_millis(s) {
        Some(m) => Ok(enc_i64(m)),
        None => Err(BarnError::InvalidAttributeValueError),
    }
}

/// The key of a `YYYY-MM-DD` date: midnight UTC of that day in milliseconds
/// since the epoch, 8 bytes little-endian; `InvalidAttributeValueError`
/// where it does not parse.
pub fn parse_date(s: &str) -> (r: Result<Vec<u8>, BarnError>)
    ensures
        r matches Ok(b) ==> naive_millis_of(s@ + " 00:00:00"@) matches Some(m) && b@ == le_bytes(
            twos64(m),
            8,
        ),
        r is Err ==> naive_millis_of(s@ + " 00:00:00"@) is None && r == Err::<Vec<u8>, BarnError>(
            BarnError::InvalidAttributeValueError,
        ),
{
    let mut padded = s.to_owned();
    padded.append(" 00:00:00");
    match naive_millis(padded.as_str()) {
        Some(m) => Ok(enc_i64(m)),
        None => Err(BarnError::InvalidAttributeValueError),
    }
}

} // verus!
