use vstd::prelude::*;
use crate::text::bytes_eq;

verus! {

/// `serde_json`'s document type, declared so that the conversion wrappers
/// below can mention it.
#[verifier::external_type_specification]
#[verifier::external_body]
pub struct ExValue(serde_json::Value);

/// A JSON document as the library holds it: text is kept as bytes, and a
/// number is kept in its lexical form, so that values pass through the
/// transcoders without loss.  Object entries keep their insertion order.
pub enum Json {
    Null,
    Bool(bool),
    Num(Vec<u8>),
    Str(Vec<u8>),
    Arr(Vec<Json>),
    Obj(Vec<(Vec<u8>, Json)>),
}

/// The mathematical shape of a `Json` value, used by every contract.
#[verifier::ext_equal]
pub enum JsonV {
    Null,
    Bool(bool),
    Num(Seq<u8>),
    Str(Seq<u8>),
    Arr(Seq<JsonV>),
    Obj(Seq<(Seq<u8>, JsonV)>),
}

impl Json {
    /// The deep view of a `Json` tree.
    pub open spec fn dv(self) -> JsonV
        decreases self,
    {
        match self {
            Json::Null => JsonV::Null,
            Json::Bool(b) => JsonV::Bool(b),
            Json::Num(t) => JsonV::Num(t@),
            Json::Str(t) => JsonV::Str(t@),
            Json::Arr(items) => JsonV::Arr(Json::dv_seq(items@)),
            Json::Obj(entries) => JsonV::Obj(Json::dv_entries(entries@)),
        }
    }

    /// The deep views of the elements of an array, in order.
    pub open spec fn dv_seq(items: Seq<Json>) -> Seq<JsonV>
        decreases items,
    {
        if items.len() == 0 {
            Seq::empty()
        } else {
            seq![items[0].dv()] + Json::dv_seq(items.skip(1))
        }
    }

    /// The deep views of the entries of an object, in order.
    pub open spec fn dv_entries(entries: Seq<(Vec<u8>, Json)>) -> Seq<(Seq<u8>, JsonV)>
        decreases entries,
    {
        if entries.len() == 0 {
            Seq::empty()
        } else {
            seq![(entries[0].0@, entries[0].1.dv())] + Json::dv_entries(entries.skip(1))
        }
    }
}

impl JsonV {
    /// The value of the first entry named `key`, if the object has one.
    pub open spec fn get(self, key: Seq<u8>) -> Option<JsonV>
        decreases self,
    {
        match self {
            JsonV::Obj(entries) => JsonV::entries_get(entries, key),
            _ => Option::None,
        }
    }

    pub open spec fn entries_get(entries: Seq<(Seq<u8>, JsonV)>, key: Seq<u8>) -> Option<JsonV>
        decreases entries.len(),
    {
        if entries.len() == 0 {
            Option::None
        } else if entries[0].0 == key {
            Option::Some(entries[0].1)
        } else {
            JsonV::entries_get(entries.skip(1), key)
        }
    }
}

/// The view of an array's elements is the element-wise view.
pub broadcast proof fn lemma_dv_seq(items: Seq<Json>)
    ensures
        (#[trigger] Json::dv_seq(items)).len() == items.len(),
        forall|i: int| 0 <= i < items.len() ==> Json::dv_seq(items)[i] == items[i].dv(),
    decreases items,
{
    if items.len() > 0 {
        lemma_dv_seq(items.skip(1));
        assert forall|i: int| 0 <= i < items.len() implies Json::dv_seq(items)[i]
            == items[i].dv() by {
            if i > 0 {
                assert(items.skip(1)[i - 1] == items[i]);
            }
        }
    }
}

/// The view of an object's entries is the entry-wise view.
pub broadcast proof fn lemma_dv_entries(entries: Seq<(Vec<u8>, Json)>)
    ensures
        (#[trigger] Json::dv_entries(entries)).len() == entries.len(),
        forall|i: int| 0 <= i < entries.len() ==> Json::dv_entries(entries)[i] == (
        entries[i].0@,
        entries[i].1.dv(),
        ),
    decreases entries,
{
    if entries.len() > 0 {
        lemma_dv_entries(entries.skip(1));
        assert forall|i: int| 0 <= i < entries.len() implies Json::dv_entries(entries)[i] == (
        entries[i].0@,
        entries[i].1.dv(),
        ) by {
            if i > 0 {
                assert(entries.skip(1)[i - 1] == entries[i]);
            }
        }
    }
}

impl Json {
    /// The value of the first entry named `key`, when this is an object that
    /// has one.
    pub fn get<'a>(&'a self, key: &[u8]) -> (r: Option<&'a Json>)
        ensures
            match r {
                Some(j) => self.dv().get(key@) == Some(j.dv()),
                None => self.dv().get(key@) is None,
            },
    {
        match self {
            Json::Obj(entries) => {
                let ghost all = Json::dv_entries(entries@);
                proof {
                    assert(entries@.skip(0) =~= entries@);
                    assert(self.dv() == JsonV::Obj(all));
                }
                let mut i: usize = 0;
                while i < entries.len()
                    invariant
                        0 <= i <= entries@.len(),
                        all == Json::dv_entries(entries@),
                        self.dv() == JsonV::Obj(all),
                        JsonV::entries_get(all, key@) == JsonV::entries_get(
                            Json::dv_entries(entries@.skip(i as int)),
                            key@,
                        ),
                    decreases entries@.len() - i,
                {
                    let ghost s = entries@.skip(i as int);
                    proof {
                        lemma_dv_entries(s);
                        assert(s[0] == entries@[i as int]);
                    }
                    if bytes_eq(&entries[i].0, key) {
                        let res = &entries[i].1;
                        proof {
                            assert(Json::dv_entries(s)[0] == (entries@[i as int].0@, entries@[
                                i as int].1.dv()));
                            assert(JsonV::entries_get(Json::dv_entries(s), key@) == Some(
                                entries@[i as int].1.dv(),
                            ));
                            assert(res.dv() == entries@[i as int].1.dv());
                            assert(JsonV::entries_get(all, key@) == Some(res.dv()));
                            assert(self.dv().get(key@) == JsonV::entries_get(all, key@));
                        }
                        return Some(res);
                    }
                    proof {
                        assert(Json::dv_entries(s)[0] == (entries@[i as int].0@, entries@[
                            i as int].1.dv()));
                        assert(Json::dv_entries(s).skip(1) =~= Json::dv_entries(s.skip(1)));
                        assert(s.skip(1) =~= entries@.skip(i as int + 1));
                    }
                    i += 1;
                }
                proof {
                    assert(entries@.skip(i as int).len() == 0);
                }
                None
            },
            _ => None,
        }
    }
}

/// What a byte string parses to as one JSON document, or nothing when it is
/// malformed; determined by the bytes alone.
pub uninterp spec fn parsed_json(bytes: Seq<u8>) -> Option<JsonV>;

/// The byte text that a JSON value serializes to; determined by the value
/// alone.
pub uninterp spec fn json_text(v: JsonV) -> Seq<u8>;

/// Relies on `serde_json::Value`'s variants: rebuilds one node of the outside
/// document type as the library's own, recursing on children.
#[verifier::external_body]
fn from_value(v: serde_json::Value) -> Json {
    match v {
        serde_json::Value::Null => Json::Null,
        serde_json::Value::Bool(b) => Json::Bool(b),
        serde_json::Value::Number(n) => Json::Num(n.to_string().into_bytes()),
        serde_json::Value::String(s) => Json::Str(s.into_bytes()),
        serde_json::Value::Array(a) => Json::Arr(a.into_iter().map(from_value).collect()),
        serde_json::Value::Object(o) => Json::Obj(
            o.into_iter().map(|e| (e.0.into_bytes(), from_value(e.1))).collect(),
        ),
    }
}

/// Rebuilds one node of the library's document type as `serde_json`'s,
/// recursing on children; a number travels through `serde_json::from_slice`
/// to recover its numeric form from its kept lexical form.
#[verifier::external_body]
fn to_value(j: &Json) -> serde_json::Value {
    match j {
        Json::Null => serde_json::Value::Null,
        Json::Bool(b) => serde_json::Value::Bool(*b),
        Json::Num(t) => serde_json::from_slice(t).unwrap_or(serde_json::Value::Null),
        Json::Str(t) => serde_json::Value::String(String::from_utf8_lossy(t).into_owned()),
        Json::Arr(items) => serde_json::Value::Array(items.iter().map(to_value).collect()),
        Json::Obj(es) => serde_json::Value::Object(
            es.iter().map(|e| (String::from_utf8_lossy(&e.0).into_owned(), to_value(&e.1))).collect(),
        ),
    }
}

/// Relies on `serde_json::from_slice`: whether, and to what document, a byte
/// string parses is determined by the bytes alone.
#[verifier::external_body]
pub fn parse_json(bytes: &[u8]) -> (r: Option<Json>)
    ensures
        match r {
            Some(j) => parsed_json(bytes@) == Some(j.dv()),
            None => parsed_json(bytes@) is None,
        },
{
    match serde_json::from_slice::<serde_json::Value>(bytes) {
        Ok(v) => Some(from_value(v)),
        Err(_) => None,
    }
}

/// Relies on `serde_json::to_vec`: the serialized text of a JSON document is
/// determined by the document alone.
#[verifier::external_body]
pub fn dump_json(j: &Json) -> (r: Vec<u8>)
    ensures
        r@ == json_text(j.dv()),
{
    serde_json::to_vec(&to_value(j)).unwrap_or(Vec::new())
}

} // verus!
