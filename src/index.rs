//! Secondary indices: which key a document's attribute value gets.
use vstd::prelude::*;
use vstd::string::*;
use vstd::utf8::encode_utf8;
use crate::codec::{enc_i64, enc_pk, le_bytes, twos64};
use crate::double::{i64_double_bits, int_double_bits, u64_double_bits};
use crate::errors::BarnError;
use crate::json::JsonValue;
use crate::schema::{naive_millis_of, parse_date, parse_datetime, rfc3339_millis_of};
use crate::text::{lower_of, lowercase, trim, trim_of};

verus! {

/// One secondary index of a resource: the attribute it covers, as member
/// names from the document root, the attribute's declared type and format,
/// and whether a key may be held by one document only.
pub struct Index {
    pub name: String,
    pub unique: bool,
    pub at_path: Vec<String>,
    pub val_type: String,
    pub val_format: String,
}

/// The key under which an attribute value of type `t` and format `f` is
/// indexed: `Ok(None)` where the value is not of that type, and the index
/// is then left alone. A number index keys every JSON number by the bits
/// of its double, an integer by those of the double nearest to it.
pub open spec fn index_key(t: Seq<char>, f: Seq<char>, v: JsonValue) -> Result<Option<Seq<u8>>, BarnError> {
    if t == "integer"@ {
        match v {
            JsonValue::Int(i) => Ok(Some(le_bytes(twos64(i), 8))),
            JsonValue::UInt(u) => if u <= i64::MAX {
                Ok(Some(le_bytes(u as nat, 8)))
            } else {
                Ok(None)
            },
            _ => Ok(None),
        }
    } else if t == "string"@ {
        match v {
            JsonValue::Str(s) => if f == "date-time"@ {
                match rfc3339_millis_of(s@) {
                    Some(m) => Ok(Some(le_bytes(twos64(m), 8))),
                    None => Err(BarnError::InvalidAttributeValueError),
                }
            } else if f == "date"@ {
                match naive_millis_of(s@ + " 00:00:00"@) {
                    Some(m) => Ok(Some(le_bytes(twos64(m), 8))),
                    None => Err(BarnError::InvalidAttributeValueError),
                }
            } else {
                Ok(Some(encode_utf8(lower_of(trim_of(s@)))))
            },
            _ => Ok(None),
        }
    } else if t == "number"@ {
        match v {
            JsonValue::Float(bits) => Ok(Some(le_bytes(bits as nat, 8))),
            JsonValue::Int(i) => Ok(Some(le_bytes(int_double_bits(i as int), 8))),
            JsonValue::UInt(u) => Ok(Some(le_bytes(int_double_bits(u as int), 8))),
            _ => Ok(None),
        }
    } else {
        Err(BarnError::UnsupportedIndexValueType)
    }
}

impl Index {
    /// The key this index gives to the attribute value `v`, as `index_key`
    /// states.
    pub fn key_for(&self, v: &JsonValue) -> (r: Result<Option<Vec<u8>>, BarnError>)
        ensures
            r matches Ok(Some(k)) ==> index_key(self.val_type@, self.val_format@, *v) == Ok::<
                Option<Seq<u8>>,
                BarnError,
            >(Some(k@)),
            r matches Ok(None) ==> index_key(self.val_type@, self.val_format@, *v) == Ok::<
                Option<Seq<u8>>,
                BarnError,
            >(None),
            r matches Err(e) ==> index_key(self.val_type@, self.val_format@, *v) == Err::<
                Option<Seq<u8>>,
                BarnError,
            >(e),
    {
        if self.val_type == String::from_str("integer") {
            match v {
                JsonValue::Int(i) => Ok(Some(enc_i64(*i))),
                JsonValue::UInt(u) => {
                    if *u <= 0x7FFF_FFFF_FFFF_FFFFu64 {
                        let k = enc_i64(*u as i64);
                        Ok(Some(k))
                    } else {
                        Ok(None)
                    }
                },
                _ => Ok(None),
            }
        } else if self.val_type == String::from_str("string") {
            match v {
                JsonValue::Str(s) => {
                    if self.val_format == String::from_str("date-time") {
                        match parse_datetime(s.as_str()) {
                            Ok(k) => Ok(Some(k)),
                            Err(e) => Err(e),
                        }
                    } else if self.val_format == String::from_str("date") {
                        match parse_date(s.as_str()) {
                            Ok(k) => Ok(Some(k)),
                            Err(e) => Err(e),
                        }
                    } else {
                        let t = trim(s.as_str());
                        let l = lowercase(t.as_str());
                        Ok(Some(l.as_str().as_bytes_vec()))
                    }
                },
                _ => Ok(None),
            }
        } else if self.val_type == String::from_str("number") {
            match v {
                JsonValue::Float(bits) => Ok(Some(enc_pk(*bits))),
                JsonValue::Int(i) => Ok(Some(enc_pk(i64_double_bits(*i)))),
                JsonValue::UInt(u) => Ok(Some(enc_pk(u64_double_bits(*u)))),
                _ => Ok(None),
            }
        } else {
            Err(BarnError::UnsupportedIndexValueType)
        }
    }
}

} // verus!
