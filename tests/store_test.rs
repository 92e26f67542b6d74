use std::collections::BTreeMap;

use barn::barn::Barn;
use barn::barrel::{Fetched, InsertPlan};
use barn::codec::{enc_i64, enc_pk, from_le_bytes};
use barn::conf::{DbConf, IndexConf, ResourceConf, ResourceDefaults};
use barn::errors::BarnError;
use barn::json::JsonValue;

fn s(x: &str) -> JsonValue {
    JsonValue::Str(x.to_string())
}

fn obj(members: Vec<(&str, JsonValue)>) -> JsonValue {
    JsonValue::Object(members.into_iter().map(|(k, v)| (k.to_string(), v)).collect())
}

fn schema() -> JsonValue {
    obj(vec![(
        "definitions",
        obj(vec![(
            "Business",
            obj(vec![(
                "properties",
                obj(vec![
                    ("reg_id", obj(vec![("type", s("string"))])),
                    ("website", obj(vec![("type", s("string"))])),
                    ("employees", obj(vec![("type", s("integer"))])),
                    ("country_code", obj(vec![("type", s("string"))])),
                ]),
            )]),
        )]),
    )])
}

fn conf(indices: Vec<(&str, Option<bool>)>) -> DbConf {
    DbConf {
        db_size: 1 << 20,
        no_sync: false,
        allow_conf_resources_only: false,
        resource_defaults: ResourceDefaults { id_attr_name: "_rowid".to_string(), id_attr_type: "integer".to_string() },
        resources: vec![(
            "Business".to_string(),
            ResourceConf {
                id_attr_name: Some("id".to_string()),
                id_attr_type: Some("string".to_string()),
                indices: indices
                    .into_iter()
                    .map(|(p, u)| IndexConf { attr_path: p.to_string(), unique: u })
                    .collect(),
            },
        )],
    }
}

fn business(reg_id: &str) -> JsonValue {
    obj(vec![("reg_id", s(reg_id)), ("country_code", s("US")), ("display_name", s("Acme"))])
}

fn member<'a>(v: &'a JsonValue, k: &str) -> Option<&'a JsonValue> {
    match v {
        JsonValue::Object(es) => es.iter().rev().find(|e| e.0 == k).map(|e| &e.1),
        _ => None,
    }
}

fn text(v: Option<&JsonValue>) -> Option<String> {
    match v {
        Some(JsonValue::Str(t)) => Some(t.clone()),
        _ => None,
    }
}

/// A transactional engine for the tests: a plan is applied whole or not at all.
#[derive(Default)]
struct Engine {
    counter: Option<Vec<u8>>,
    docs: BTreeMap<Vec<u8>, String>,
    rows: BTreeMap<(String, Vec<u8>), Vec<u8>>,
}

impl Engine {
    fn apply(&mut self, p: &InsertPlan, doc: &JsonValue) -> Result<(), BarnError> {
        for w in &p.index_writes {
            let (k, _) = w.index_row();
            w.on_key_read(self.rows.contains_key(&(w.index.clone(), k)))?;
        }
        p.on_primary_read(self.docs.contains_key(&p.primary_key))?;
        for w in &p.index_writes {
            let (k, v) = w.index_row();
            self.rows.insert((w.index.clone(), k), v);
        }
        self.docs.insert(p.primary_key.clone(), format!("{:?}", doc));
        self.counter = Some(p.counter_value.clone());
        Ok(())
    }

    fn insert(&mut self, barn: &Barn, res: &str, doc: &mut JsonValue) -> Result<u64, BarnError> {
        let p = barn.insert(res, &self.counter, doc)?;
        self.apply(&p, doc)?;
        Ok(p.pk)
    }
}

#[test]
fn fresh_store_single_insert() {
    let barn = Barn::open(&conf(vec![]), schema()).unwrap();
    let mut e = Engine::default();
    let mut doc = business("X1");
    let pk = e.insert(&barn, "Business", &mut doc).unwrap();
    assert_eq!(pk, 1);
    assert_eq!(text(member(&doc, "id")), Some("1".to_string()));
    let got = barn.get(1, "Business", Fetched::Doc(doc)).unwrap();
    assert_eq!(text(member(&got, "id")), Some("1".to_string()));
    assert_eq!(text(member(&got, "reg_id")), Some("X1".to_string()));
}

#[test]
fn duplicate_unique_index() {
    let barn = Barn::open(&conf(vec![("reg_id", Some(true))]), schema()).unwrap();
    let mut e = Engine::default();
    let mut first = business("X1");
    assert_eq!(e.insert(&barn, "Business", &mut first), Ok(1));
    let mut second = business("x1 ");
    assert_eq!(e.insert(&barn, "Business", &mut second), Err(BarnError::TxWriteError));
    assert_eq!(e.counter, Some(enc_pk(1)));
    assert!(!e.docs.contains_key(&enc_pk(2)));
    assert_eq!(barn.get(2, "Business", Fetched::Missing).err(), Some(BarnError::ResourceNotFoundError));
    let mut third = business("X2");
    assert_eq!(e.insert(&barn, "Business", &mut third), Ok(2));
}

#[test]
fn missing_indexed_attribute() {
    let barn = Barn::open(&conf(vec![("website", Some(true))]), schema()).unwrap();
    let mut doc = business("X1");
    let p = barn.insert("Business", &None, &mut doc).unwrap();
    assert_eq!(p.pk, 1);
    assert!(p.index_writes.is_empty());
    assert_eq!(p.primary_key, enc_pk(1));
}

#[test]
fn unknown_resource() {
    let barn = Barn::open(&conf(vec![]), schema()).unwrap();
    let mut doc = business("X1");
    assert_eq!(barn.insert("Unknown", &None, &mut doc).err(), Some(BarnError::UnknownResourceName));
    assert_eq!(text(member(&doc, "id")), None);
    assert_eq!(barn.get(1, "Unknown", Fetched::Missing).err(), Some(BarnError::UnknownResourceName));
}

#[test]
fn pks_are_contiguous() {
    let barn = Barn::open(&conf(vec![("reg_id", Some(false))]), schema()).unwrap();
    let mut e = Engine::default();
    for i in 1..=25u64 {
        let mut d = business(&format!("R{}", i));
        assert_eq!(e.insert(&barn, "Business", &mut d), Ok(i));
        assert_eq!(text(member(&d, "id")), Some(i.to_string()));
    }
    assert_eq!(from_le_bytes(e.counter.as_ref().unwrap()), 25);
}

#[test]
fn id_stamping_overrides_caller_id() {
    let barn = Barn::open(&conf(vec![]), schema()).unwrap();
    let mut doc = obj(vec![("id", s("garbage")), ("reg_id", s("X1"))]);
    let p = barn.insert("Business", &Some(enc_pk(11)), &mut doc).unwrap();
    assert_eq!(p.pk, 12);
    assert_eq!(text(member(&doc, "id")), Some("12".to_string()));
    match &doc {
        JsonValue::Object(es) => {
            assert_eq!(es.len(), 2);
            assert_eq!(es.iter().filter(|e| e.0 == "id").count(), 1);
            assert_eq!(es[1].0, "id");
        }
        _ => panic!("not an object"),
    }
}

#[test]
fn integer_ids_use_defaults() {
    let mut c = conf(vec![]);
    c.resources[0].1.id_attr_name = None;
    c.resources[0].1.id_attr_type = Some(String::new());
    let barn = Barn::open(&c, schema()).unwrap();
    let mut doc = business("X1");
    let p = barn.insert("Business", &None, &mut doc).unwrap();
    assert_eq!(p.pk, 1);
    assert!(matches!(member(&doc, "_rowid"), Some(JsonValue::UInt(1))));
}

#[test]
fn non_unique_reinsert_is_idempotent() {
    let barn = Barn::open(&conf(vec![("country_code", None)]), schema()).unwrap();
    let mut e = Engine::default();
    let mut d = business("X1");
    let p = barn.insert("Business", &e.counter, &mut d).unwrap();
    e.apply(&p, &d).unwrap();
    let rows = e.rows.len();
    for w in &p.index_writes {
        assert!(!w.unique);
        let (k, v) = w.index_row();
        assert_eq!(w.on_key_read(true), Ok(()));
        e.rows.insert((w.index.clone(), k), v);
    }
    assert_eq!(e.rows.len(), rows);
    let mut d2 = business("X2");
    assert_eq!(e.insert(&barn, "Business", &mut d2), Ok(2));
    assert_eq!(e.rows.len(), 2);
}

#[test]
fn index_writes_carry_typed_keys() {
    let barn = Barn::open(&conf(vec![("reg_id", Some(true)), ("employees", None)]), schema()).unwrap();
    let mut d = obj(vec![("reg_id", s("  AbC ")), ("employees", JsonValue::Int(-1))]);
    let p = barn.insert("Business", &None, &mut d).unwrap();
    assert_eq!(p.index_writes.len(), 2);
    assert_eq!(p.index_writes[0].index, "business_reg_id");
    assert_eq!(p.index_writes[0].key, b"abc".to_vec());
    assert!(p.index_writes[0].unique);
    assert_eq!(p.index_writes[0].value, enc_pk(1));
    assert_eq!(p.index_writes[1].index, "business_employees");
    assert_eq!(p.index_writes[1].key, enc_i64(-1));
    assert!(!p.index_writes[1].unique);
    assert_eq!(p.counter_key, enc_pk(0));
    assert_eq!(p.counter_value, enc_pk(1));
}

#[test]
fn uncoercible_index_value_is_skipped() {
    let barn = Barn::open(&conf(vec![("employees", None)]), schema()).unwrap();
    let mut d = obj(vec![("employees", s("many"))]);
    let p = barn.insert("Business", &None, &mut d).unwrap();
    assert!(p.index_writes.is_empty());
}

#[test]
fn non_object_document_is_refused() {
    let barn = Barn::open(&conf(vec![]), schema()).unwrap();
    let mut d = JsonValue::Array(vec![]);
    assert_eq!(barn.insert("Business", &None, &mut d).err(), Some(BarnError::InvalidResourceDataError));
}

#[test]
fn short_counter_row_is_a_read_error() {
    let barn = Barn::open(&conf(vec![]), schema()).unwrap();
    let mut d = business("X1");
    assert_eq!(barn.insert("Business", &Some(vec![1, 2]), &mut d).err(), Some(BarnError::TxReadError));
    assert_eq!(
        barn.insert("Business", &Some(enc_pk(u64::MAX)), &mut d).err(),
        Some(BarnError::TxWriteError)
    );
}

#[test]
fn get_rejects_reserved_id_and_bad_rows() {
    let barn = Barn::open(&conf(vec![]), schema()).unwrap();
    assert_eq!(barn.get(0, "Business", Fetched::Doc(business("X"))).err(), Some(BarnError::ResourceNotFoundError));
    assert_eq!(barn.get(3, "Business", Fetched::Undecodable).err(), Some(BarnError::DeSerializationError));
    let b = barn.barrel("Business").unwrap();
    assert_eq!(b.get_key(0), Err(BarnError::ResourceNotFoundError));
    assert_eq!(b.get_key(2), Ok(enc_pk(2)));
}

#[test]
fn open_refuses_bad_configs() {
    let mut c = conf(vec![]);
    c.resources.clear();
    assert_eq!(Barn::open(&c, schema()).err(), Some(BarnError::DbConfigError));
    let c = conf(vec![("unknown_attr", Some(true))]);
    assert_eq!(Barn::open(&c, schema()).err(), Some(BarnError::DbConfigError));
    let c = conf(vec![("reg_id", Some(true))]);
    assert_eq!(Barn::open(&c, obj(vec![])).err(), Some(BarnError::DbConfigError));
}

#[test]
fn open_falls_back_to_shared_properties() {
    let sc = obj(vec![(
        "properties",
        obj(vec![("properties", obj(vec![("reg_id", obj(vec![("type", s("integer"))]))]))]),
    )]);
    let barn = Barn::open(&conf(vec![("reg_id", None)]), sc).unwrap();
    let b = barn.barrel("Business").unwrap();
    assert_eq!(b.name, "business");
    assert_eq!(b.indices[0].val_type, "integer");
    assert_eq!(b.indices[0].at_path, vec!["reg_id".to_string()]);
}

#[test]
fn unsupported_index_type_fails_insert() {
    let sc = obj(vec![(
        "definitions",
        obj(vec![("Business", obj(vec![("properties", obj(vec![("tags", obj(vec![("type", s("array"))]))]))]))]),
    )]);
    let barn = Barn::open(&conf(vec![("tags", None)]), sc).unwrap();
    let mut d = obj(vec![("tags", JsonValue::Array(vec![]))]);
    assert_eq!(barn.insert("Business", &None, &mut d).err(), Some(BarnError::UnsupportedIndexValueType));
}

#[test]
fn db_conf_new_defaults() {
    let c = DbConf::new(10240, true, "Business".to_string());
    assert_eq!(c.db_size, 10240);
    assert!(c.no_sync);
    assert!(!c.allow_conf_resources_only);
    assert_eq!(c.resource_defaults.id_attr_name, "_rowid");
    assert_eq!(c.resource_defaults.id_attr_type, "integer");
    assert_eq!(c.resources.len(), 1);
    assert_eq!(c.resources[0].0, "Business");
    assert!(c.resources[0].1.indices.is_empty());
}

#[test]
fn write_policy_steps() {
    let barn = Barn::open(&conf(vec![("reg_id", Some(true)), ("country_code", None)]), schema()).unwrap();
    let mut d = business("X1");
    let p = barn.insert("Business", &Some(enc_pk(4)), &mut d).unwrap();
    let unique = &p.index_writes[0];
    let shared = &p.index_writes[1];
    assert_eq!(unique.index_row(), (b"x1".to_vec(), enc_pk(5)));
    let mut k = b"us".to_vec();
    k.extend(enc_pk(5));
    assert_eq!(shared.index_row(), (k, enc_pk(5)));
    assert_eq!(unique.on_key_read(true), Err(BarnError::TxWriteError));
    assert_eq!(unique.on_key_read(false), Ok(()));
    assert_eq!(shared.on_key_read(true), Ok(()));
    assert_eq!(p.on_primary_read(true), Err(BarnError::TxWriteError));
    assert_eq!(p.on_primary_read(false), Ok(()));
}

#[test]
fn number_index_keys_integers_by_their_double() {
    let sc = obj(vec![(
        "definitions",
        obj(vec![("Business", obj(vec![("properties", obj(vec![("score", obj(vec![("type", s("number"))]))]))]))]),
    )]);
    let barn = Barn::open(&conf(vec![("score", None)]), sc).unwrap();
    let mut d = obj(vec![("score", JsonValue::Int(-7))]);
    let p = barn.insert("Business", &None, &mut d).unwrap();
    assert_eq!(p.index_writes.len(), 1);
    assert_eq!(p.index_writes[0].key, (-7.0f64).to_bits().to_le_bytes().to_vec());
}
