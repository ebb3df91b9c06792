use vstd::prelude::*;

use crate::error::Error;
use crate::headers::{spec_header_lookup, Headers};
use crate::json::{
    fields_view, jobj_lookup, jval_of, lemma_fields_view_index, lemma_jobj_lookup_absent,
    JsonValue, JVal,
};
use crate::outside::{parse_timestamp, string_from_chars, ts_of};
use crate::wire::{
    fields_ok, parse_flat, parse_flat_exec, parse_keyed_array, parse_keyed_array_exec,
    print_field_exec, print_object, scalar_ok, scalar_ok_exec, WireFields,
};

verus! {

/// A payload with no fields of its own.
#[derive(Debug, Clone, PartialEq)]
pub struct NoData {}

/// The model of a stored record.
pub ghost struct EntityModel {
    pub row_key: Seq<char>,
    pub partition_key: Seq<char>,
    pub etag: Option<Seq<char>>,
    pub timestamp: Option<i64>,
    pub payload: Seq<(Seq<char>, JVal)>,
}

/// A stored record: the two server keys, the server-assigned etag and
/// timestamp where a response carried them (the timestamp as epoch
/// milliseconds), and the caller's flat payload fields in wire order.
#[derive(Debug)]
pub struct TableEntity {
    pub row_key: String,
    pub partition_key: String,
    pub etag: Option<String>,
    pub timestamp: Option<i64>,
    pub payload: Vec<(String, JsonValue)>,
}

impl View for TableEntity {
    type V = EntityModel;

    open spec fn view(&self) -> EntityModel {
        EntityModel {
            row_key: self.row_key@,
            partition_key: self.partition_key@,
            etag: match self.etag {
                Some(e) => Some(e@),
                None => None,
            },
            timestamp: self.timestamp,
            payload: fields_view(self.payload@),
        }
    }
}

/// The model of the metadata projection of one wire row.
pub ghost struct MetaModel {
    pub row_key: Seq<char>,
    pub partition_key: Seq<char>,
    pub etag: Option<Seq<char>>,
    pub timestamp: Option<i64>,
}

/// The metadata projection of one wire row: the fields the store itself
/// speaks for.
#[derive(Debug)]
pub struct Meta {
    pub row_key: String,
    pub partition_key: String,
    pub etag: Option<String>,
    pub timestamp: Option<i64>,
}

impl View for Meta {
    type V = MetaModel;

    open spec fn view(&self) -> MetaModel {
        MetaModel {
            row_key: self.row_key@,
            partition_key: self.partition_key@,
            etag: match self.etag {
                Some(e) => Some(e@),
                None => None,
            },
            timestamp: self.timestamp,
        }
    }
}

// ---- the metadata field names of the flat wire form ----
/// True when the key is one of the metadata field names.
pub open spec fn is_meta_key(k: Seq<char>) -> bool {
    k == "PartitionKey"@ || k == "RowKey"@ || k == "odata.etag"@ || k == "Timestamp"@
}

fn is_meta_key_exec(k: &String) -> (r: bool)
    ensures
        r == is_meta_key(k@),
{
    k.eq(&"PartitionKey".to_owned()) || k.eq(&"RowKey".to_owned()) || k.eq(
        &"odata.etag".to_owned(),
    ) || k.eq(&"Timestamp".to_owned())
}

/// The fields of a row that are not metadata: the payload, in order.
pub open spec fn strip_meta(fs: Seq<(Seq<char>, JVal)>) -> Seq<(Seq<char>, JVal)>
    decreases fs.len(),
{
    if fs.len() == 0 {
        Seq::empty()
    } else if is_meta_key(fs[0].0) {
        strip_meta(fs.drop_first())
    } else {
        seq![fs[0]] + strip_meta(fs.drop_first())
    }
}

proof fn lemma_strip_meta_absent(fs: Seq<(Seq<char>, JVal)>)
    requires
        forall|i: int| 0 <= i < fs.len() ==> !is_meta_key(#[trigger] fs[i].0),
    ensures
        strip_meta(fs) == fs,
    decreases fs.len(),
{
    if fs.len() > 0 {
        assert(!is_meta_key(fs[0].0));
        assert forall|i: int| 0 <= i < fs.drop_first().len() implies !is_meta_key(
            #[trigger] fs.drop_first()[i].0,
        ) by {
            assert(fs.drop_first()[i] == fs[i + 1]);
        }
        lemma_strip_meta_absent(fs.drop_first());
        assert(seq![fs[0]] + fs.drop_first() =~= fs);
    }
}

// ---- the model of decoding ----
/// An optional string-valued field: absent or null is `None`, a string is
/// its text, anything else does not match the wire form.
pub open spec fn opt_str_field(fs: WireFields, k: Seq<char>) -> Option<Option<Seq<char>>> {
    match jobj_lookup(fs, k) {
        None => Some(None),
        Some(JVal::Null) => Some(None),
        Some(JVal::Str(x)) => Some(Some(x)),
        Some(_) => None,
    }
}

/// The timestamp field: absent or null is `None`, a string must read as a
/// timestamp, anything else does not match the wire form.
pub open spec fn ts_field(fs: WireFields) -> Option<Option<i64>> {
    match jobj_lookup(fs, "Timestamp"@) {
        None => Some(None),
        Some(JVal::Null) => Some(None),
        Some(JVal::Str(t)) => match ts_of(t) {
            Some(ms) => Some(Some(ms)),
            None => None,
        },
        Some(_) => None,
    }
}

/// The metadata a wire row carries, when the row matches the wire form:
/// both keys must be strings; etag and timestamp are optional.
pub open spec fn meta_model(fs: WireFields) -> Option<MetaModel> {
    match (jobj_lookup(fs, "PartitionKey"@), jobj_lookup(fs, "RowKey"@)) {
        (Some(JVal::Str(pk)), Some(JVal::Str(rk))) => {
            match (opt_str_field(fs, "odata.etag"@), ts_field(fs)) {
                (Some(et), Some(ts)) => Some(
                    MetaModel { row_key: rk, partition_key: pk, etag: et, timestamp: ts },
                ),
                _ => None,
            }
        },
        _ => None,
    }
}

/// One metadata projection and one payload, united into a record.
pub open spec fn combined(m: MetaModel, p: Seq<(Seq<char>, JVal)>) -> EntityModel {
    EntityModel {
        row_key: m.row_key,
        partition_key: m.partition_key,
        etag: m.etag,
        timestamp: m.timestamp,
        payload: p,
    }
}

/// The record a wire row decodes to, when the row matches the wire form.
pub open spec fn decode_model(fs: WireFields) -> Option<EntityModel> {
    match meta_model(fs) {
        Some(m) => Some(combined(m, strip_meta(fs))),
        None => None,
    }
}

// ---- decoding, executably ----
/// Reads the metadata projection of one parsed row.
fn extract_meta(fields: &Vec<(String, JsonValue)>) -> (r: Result<Meta, Error>)
    ensures
        match r {
            Ok(m) => meta_model(fields_view(fields@)) == Some(m@),
            Err(e) => e == Error::MalformedResponse && meta_model(fields_view(fields@))
                is None,
        },
{
    let fv = crate::json::fields_get(fields, &"PartitionKey".to_owned());
    let pk: String = match fv {
        Some(JsonValue::Str(x)) => x.clone(),
        _ => {
            return Err(Error::MalformedResponse);
        },
    };
    let rv = crate::json::fields_get(fields, &"RowKey".to_owned());
    let rk: String = match rv {
        Some(JsonValue::Str(x)) => x.clone(),
        _ => {
            return Err(Error::MalformedResponse);
        },
    };
    let ev = crate::json::fields_get(fields, &"odata.etag".to_owned());
    let etag: Option<String> = match ev {
        None => None,
        Some(JsonValue::Null) => None,
        Some(JsonValue::Str(x)) => Some(x.clone()),
        Some(_) => {
            return Err(Error::MalformedResponse);
        },
    };
    let tv = crate::json::fields_get(fields, &"Timestamp".to_owned());
    let timestamp: Option<i64> = match tv {
        None => None,
        Some(JsonValue::Null) => None,
        Some(JsonValue::Str(t)) => match parse_timestamp(t.as_str()) {
            Some(ms) => Some(ms),
            None => {
                return Err(Error::MalformedResponse);
            },
        },
        Some(_) => {
            return Err(Error::MalformedResponse);
        },
    };
    Ok(Meta { row_key: rk, partition_key: pk, etag, timestamp })
}

/// Drops the metadata fields of one parsed row, keeping the payload fields
/// in order.
fn strip_meta_exec(fields: Vec<(String, JsonValue)>) -> (r: Vec<(String, JsonValue)>)
    ensures
        fields_view(r@) == strip_meta(fields_view(fields@)),
{
    let ghost full = fields_view(fields@);
    let mut rest = fields;
    let mut out: Vec<(String, JsonValue)> = Vec::new();
    proof {
        assert(fields_view(out@) =~= Seq::<(Seq<char>, JVal)>::empty());
        assert(fields_view(out@) + strip_meta(fields_view(rest@)) =~= strip_meta(
            fields_view(rest@),
        ));
    }
    while rest.len() > 0
        invariant
            strip_meta(full) == fields_view(out@) + strip_meta(fields_view(rest@)),
        decreases rest.len(),
    {
        let ghost old_rest = fields_view(rest@);
        let ghost old_out = fields_view(out@);
        let f = rest.remove(0);
        proof {
            lemma_fields_view_index(rest@);
            assert(old_rest.len() > 0);
            assert(old_rest[0] == (f.0@, jval_of(f.1)));
            assert(fields_view(rest@) =~= old_rest.drop_first());
        }
        if is_meta_key_exec(&f.0) {
            proof {
                assert(strip_meta(old_rest) == strip_meta(old_rest.drop_first()));
            }
        } else {
            let ghost fv = (f.0@, jval_of(f.1));
            let ghost old_out_vec = out@;
            out.push(f);
            proof {
                lemma_fields_view_index(out@);
                lemma_fields_view_index(old_out_vec);
                assert(fields_view(out@) =~= old_out + seq![fv]);
                assert(strip_meta(old_rest) == seq![fv] + strip_meta(old_rest.drop_first()));
                assert(old_out + (seq![fv] + strip_meta(fields_view(rest@))) =~= (old_out
                    + seq![fv]) + strip_meta(fields_view(rest@)));
            }
        }
    }
    proof {
        assert(fields_view(rest@).len() == rest@.len()) by {
            lemma_fields_view_index(rest@);
        }
        assert(fields_view(rest@) =~= Seq::<(Seq<char>, JVal)>::empty());
        assert(fields_view(out@) + Seq::<(Seq<char>, JVal)>::empty() =~= fields_view(out@));
    }
    out
}


/// Decodes one parsed row into a record.
fn decode_fields(fields: Vec<(String, JsonValue)>) -> (r: Result<TableEntity, Error>)
    ensures
        match r {
            Ok(e) => decode_model(fields_view(fields@)) == Some(e@),
            Err(err) => err == Error::MalformedResponse && decode_model(
                fields_view(fields@),
            ) is None,
        },
{
    let meta = match extract_meta(&fields) {
        Ok(m) => m,
        Err(e) => {
            return Err(e);
        },
    };
    let payload = strip_meta_exec(fields);
    Ok(
        TableEntity {
            row_key: meta.row_key,
            partition_key: meta.partition_key,
            etag: meta.etag,
            timestamp: meta.timestamp,
            payload,
        },
    )
}

// ---- the fields an entity writes ----
/// The wire fields of a record: the two keys first, then the payload.
/// The server-assigned etag and timestamp are never written: the store,
/// not the caller, speaks for them.
pub open spec fn entity_fields(m: EntityModel) -> WireFields {
    seq![("PartitionKey"@, JVal::Str(m.partition_key)), ("RowKey"@, JVal::Str(m.row_key))]
        + m.payload
}

/// True when a record can be written in the flat form: every payload value
/// is a scalar with a valid number literal where it is a number, and no
/// payload field name collides with a metadata field name.
pub open spec fn encodable(m: EntityModel) -> bool {
    &&& fields_ok(m.payload)
    &&& forall|i: int| 0 <= i < m.payload.len() ==> !is_meta_key(#[trigger] m.payload[i].0)
}

impl TableEntity {
    /// Writes the record as one flat JSON object: the two keys first, the
    /// payload fields after them, at one shared nesting depth. A payload
    /// value that would need a nested object or an array — or an invalid
    /// number literal, or a payload field named like a metadata field — is
    /// refused with `UnsupportedEncoding`.
    pub fn to_payload(&self) -> (r: Result<String, Error>)
        ensures
            match r {
                Ok(text) => encodable(self@) && text@ == print_object(entity_fields(self@)),
                Err(e) => e == Error::UnsupportedEncoding && !encodable(self@),
            },
    {
        proof {
            lemma_fields_view_index(self.payload@);
        }
        // refuse anything the flat form cannot hold before writing a thing
        let mut i: usize = 0;
        while i < self.payload.len()
            invariant
                fields_view(self.payload@).len() == self.payload@.len(),
                forall|j: int|
                    0 <= j < self.payload@.len() ==> #[trigger] fields_view(self.payload@)[j]
                        == (self.payload@[j].0@, jval_of(self.payload@[j].1)),
                0 <= i <= self.payload@.len(),
                forall|j: int|
                    0 <= j < i ==> scalar_ok(#[trigger] fields_view(self.payload@)[j].1)
                        && !is_meta_key(fields_view(self.payload@)[j].0),
            decreases self.payload@.len() - i,
        {
            proof {
                assert(fields_view(self.payload@)[i as int] == (self.payload@[i as int].0@,
                jval_of(self.payload@[i as int].1)));
                assert(self@.payload[i as int].1 == jval_of(self.payload@[i as int].1));
                assert(self@.payload[i as int].0 == self.payload@[i as int].0@);
            }
            if !scalar_ok_exec(&self.payload[i].1) || is_meta_key_exec(&self.payload[i].0) {
                proof {
                    assert(!encodable(self@));
                }
                return Err(Error::UnsupportedEncoding);
            }
            i = i + 1;
        }
        proof {
            assert(self@.payload == fields_view(self.payload@));
            assert forall|j: int| 0 <= j < self@.payload.len() implies scalar_ok(
                #[trigger] self@.payload[j].1,
            ) by {
                assert(fields_view(self.payload@)[j] == (self.payload@[j].0@, jval_of(
                    self.payload@[j].1,
                )));
                assert(self@.payload[j].1 == fields_view(self.payload@)[j].1);
            }
            assert forall|j: int| 0 <= j < self@.payload.len() implies !is_meta_key(
                #[trigger] self@.payload[j].0,
            ) by {
                assert(fields_view(self.payload@)[j] == (self.payload@[j].0@, jval_of(
                    self.payload@[j].1,
                )));
                assert(fields_view(self.payload@)[j].1 == jval_of(self.payload@[j].1));
                assert(self@.payload[j].0 == fields_view(self.payload@)[j].0);
            }
            assert(encodable(self@));
        }
        let ghost fs = entity_fields(self@);
        let ghost pv = fields_view(self.payload@);
        let mut out: Vec<char> = Vec::new();
        out.push('{');
        print_field_exec("PartitionKey", &JsonValue::Str(self.partition_key.clone()), &mut out);
        out.push(',');
        print_field_exec("RowKey", &JsonValue::Str(self.row_key.clone()), &mut out);
        proof {
            assert(out@ =~= seq!['{'] + crate::wire::print_field(
                "PartitionKey"@,
                JVal::Str(self@.partition_key),
            ) + seq![','] + crate::wire::print_field("RowKey"@, JVal::Str(self@.row_key)));
            assert(pv.take(0) =~= Seq::<(Seq<char>, JVal)>::empty());
        }
        let ghost head = out@;
        let mut k: usize = 0;
        while k < self.payload.len()
            invariant
                fields_view(self.payload@).len() == self.payload@.len(),
                forall|j: int|
                    0 <= j < self.payload@.len() ==> #[trigger] fields_view(self.payload@)[j]
                        == (self.payload@[j].0@, jval_of(self.payload@[j].1)),
                forall|j: int|
                    0 <= j < self.payload@.len() ==> scalar_ok(
                        #[trigger] fields_view(self.payload@)[j].1,
                    ),
                pv == fields_view(self.payload@),
                0 <= k <= self.payload@.len(),
                out@ == head + crate::wire::print_fields_rest(pv.take(k as int)),
            decreases self.payload@.len() - k,
        {
            out.push(',');
            proof {
                assert(fields_view(self.payload@)[k as int] == (self.payload@[k as int].0@,
                jval_of(self.payload@[k as int].1)));
                assert(fields_view(self.payload@)[k as int].1 == jval_of(
                    self.payload@[k as int].1,
                ));
                assert(scalar_ok(fields_view(self.payload@)[k as int].1));
                assert(scalar_ok(jval_of(self.payload@[k as int].1)));
            }
            print_field_exec(
                self.payload[k].0.as_str(),
                &self.payload[k].1,
                &mut out,
            );
            proof {
                crate::wire::lemma_print_fields_rest_take(pv, k as int);
                assert(pv[k as int] == (self.payload@[k as int].0@, jval_of(
                    self.payload@[k as int].1,
                )));
                assert((head + crate::wire::print_fields_rest(pv.take(k as int))).push(',')
                    + crate::wire::print_field(pv[k as int].0, pv[k as int].1) =~= head + (
                crate::wire::print_fields_rest(pv.take(k as int)) + (seq![',']
                    + crate::wire::print_field(pv[k as int].0, pv[k as int].1))));
            }
            k = k + 1;
        }
        out.push('}');
        proof {
            assert(pv.take(self.payload@.len() as int) =~= pv);
            let f0 = ("PartitionKey"@, JVal::Str(self@.partition_key));
            let f1 = ("RowKey"@, JVal::Str(self@.row_key));
            assert(fs == seq![f0, f1] + self@.payload);
            assert(fs[0] == f0);
            assert(fs.drop_first() =~= seq![f1] + self@.payload);
            assert(fs.drop_first()[0] == f1);
            assert(fs.drop_first().drop_first() =~= self@.payload);
            assert(crate::wire::print_fields_rest(fs.drop_first()) == seq![',']
                + crate::wire::print_field(f1.0, f1.1) + crate::wire::print_fields_rest(
                self@.payload,
            ));
            assert(crate::wire::print_members(fs) == crate::wire::print_field(f0.0, f0.1)
                + crate::wire::print_fields_rest(fs.drop_first()) + seq!['}']);
            assert(out@ =~= print_object(fs));
        }
        let text = string_from_chars(&out);
        Ok(text)
    }

    /// Reads one flat JSON object as a record: the metadata fields become
    /// the record's keys, etag and timestamp; every other field is payload.
    /// A text that does not match the flat wire form is refused with
    /// `MalformedResponse`.
    pub fn from_payload(data: &str) -> (r: Result<TableEntity, Error>)
        ensures
            match r {
                Ok(e) => parse_flat(data@) matches Some(fs) && decode_model(fs) == Some(e@),
                Err(err) => err == Error::MalformedResponse && (parse_flat(data@) is None
                    || decode_model(parse_flat(data@).unwrap()) is None),
            },
    {
        match parse_flat_exec(data) {
            None => Err(Error::MalformedResponse),
            Some(fields) => decode_fields(fields),
        }
    }

    /// Reads a whole response: the body as `from_payload` reads it, then
    /// the etag header, where present, replacing the body's etag.
    pub fn from_response(headers: &Headers, data: &str) -> (r: Result<TableEntity, Error>)
        ensures
            match r {
                Ok(e) => {
                    &&& parse_flat(data@) matches Some(fs)
                    &&& decode_model(fs) matches Some(m)
                    &&& e@.row_key == m.row_key
                    &&& e@.partition_key == m.partition_key
                    &&& e@.timestamp == m.timestamp
                    &&& e@.payload == m.payload
                    &&& e@.etag == (match spec_header_lookup(headers@, "etag"@) {
                        Some(h) => Some(h),
                        None => m.etag,
                    })
                },
                Err(err) => err == Error::MalformedResponse && (parse_flat(data@) is None
                    || decode_model(parse_flat(data@).unwrap()) is None),
            },
    {
        let mut entity = match Self::from_payload(data) {
            Ok(e) => e,
            Err(err) => {
                return Err(err);
            },
        };
        match crate::headers::derive_etag(headers) {
            Some(h) => {
                entity.etag = Some(h);
            },
            None => {},
        }
        Ok(entity)
    }

    /// Reads a batch response, `{"values": [...]}`: one pass projects each
    /// row's metadata, one pass takes each row's payload, and the two are
    /// zipped by position.
    pub fn from_payload_set(data: &str) -> (r: Result<Vec<TableEntity>, Error>)
        ensures
            match r {
                Ok(v) => {
                    &&& parse_keyed_array(data@, "values"@) matches Some(rows)
                    &&& v@.len() == rows.len()
                    &&& forall|i: int|
                        0 <= i < rows.len() ==> decode_model(#[trigger] rows[i]) == Some(
                            v@[i]@,
                        )
                },
                Err(err) => err == Error::MalformedResponse && (parse_keyed_array(
                    data@,
                    "values"@,
                ) is None || (exists|i: int|
                    0 <= i < parse_keyed_array(data@, "values"@).unwrap().len()
                        && decode_model(
                        #[trigger] parse_keyed_array(data@, "values"@).unwrap()[i],
                    ) is None)),
            },
    {
        let rows = match parse_keyed_array_exec(data, &"values".to_owned()) {
            None => {
                return Err(Error::MalformedResponse);
            },
            Some(rows) => rows,
        };
        let ghost rows0 = crate::wire::objs_view(rows@);
        let n = rows.len();
        let mut metas: Vec<Meta> = Vec::new();
        let mut i: usize = 0;
        while i < n
            invariant
                n == rows@.len(),
                rows0 == crate::wire::objs_view(rows@),
                parse_keyed_array(data@, "values"@) == Some(rows0),
                rows0.len() == n,
                0 <= i <= n,
                metas@.len() == i,
                forall|j: int|
                    0 <= j < i ==> meta_model(#[trigger] rows0[j]) == Some(metas@[j]@),
            decreases n - i,
        {
            proof {
                assert(rows0[i as int] == fields_view(rows@[i as int]@));
            }
            match extract_meta(&rows[i]) {
                Ok(m) => {
                    metas.push(m);
                },
                Err(_) => {
                    proof {
                        assert(parse_keyed_array(data@, "values"@).unwrap() == rows0);
                        assert(parse_keyed_array(data@, "values"@).unwrap()[i as int]
                            == rows0[i as int]);
                        assert(decode_model(
                            parse_keyed_array(data@, "values"@).unwrap()[i as int],
                        ) is None);
                    }
                    return Err(Error::MalformedResponse);
                },
            }
            i = i + 1;
        }
        let mut payloads: Vec<Vec<(String, JsonValue)>> = Vec::new();
        let mut rest = rows;
        while rest.len() > 0
            invariant
                payloads@.len() + rest@.len() == n,
                rows0.len() == n,
                forall|j: int|
                    0 <= j < payloads@.len() ==> fields_view(#[trigger] payloads@[j]@)
                        == strip_meta(rows0[j]),
                forall|j: int|
                    0 <= j < rest@.len() ==> fields_view(#[trigger] rest@[j]@) == rows0[
                        payloads@.len() + j],
            decreases rest@.len(),
        {
            let ghost old_rest = rest@;
            let row = rest.remove(0);
            proof {
                assert(old_rest[0] == row);
                assert(rest@ =~= old_rest.drop_first());
                assert forall|j: int| 0 <= j < rest@.len() implies fields_view(
                    #[trigger] rest@[j]@,
                ) == rows0[payloads@.len() + 1 + j] by {
                    assert(rest@[j] == old_rest[j + 1]);
                }
            }
            let p = strip_meta_exec(row);
            payloads.push(p);
        }
        let ghost msv = metas@;
        let ghost psv = payloads@;
        match zip_entities(metas, payloads) {
            Ok(v) => {
                proof {
                    assert forall|j: int| 0 <= j < rows0.len() implies decode_model(
                        #[trigger] rows0[j],
                    ) == Some(v@[j]@) by {
                        assert(metas_view(msv)[j] == msv[j]@);
                        assert(meta_model(rows0[j]) == Some(msv[j]@));
                        assert(fields_view(psv[j]@) == strip_meta(rows0[j]));
                        assert(v@[j]@ == combined(metas_view(msv)[j], fields_view(psv[j]@)));
                    }
                }
                Ok(v)
            },
            Err(_) => {
                proof {
                    assert(false);
                }
                Err(Error::MalformedResponse)
            },
        }
    }
}

/// The models of a row of metadata projections.
pub open spec fn metas_view(ms: Seq<Meta>) -> Seq<MetaModel> {
    Seq::new(ms.len(), |i: int| ms[i]@)
}

/// Unites metadata and payload rows by position. The two rows must have
/// equal length: unequal length is refused whole, with `ArrayLengthMismatch`
/// and no partial output.
pub fn zip_entities(metas: Vec<Meta>, payloads: Vec<Vec<(String, JsonValue)>>) -> (r: Result<
    Vec<TableEntity>,
    Error,
>)
    ensures
        metas@.len() != payloads@.len() ==> r == Err::<Vec<TableEntity>, Error>(
            Error::ArrayLengthMismatch,
        ),
        metas@.len() == payloads@.len() ==> match r {
            Ok(v) => v@.len() == metas@.len() && forall|i: int|
                0 <= i < v@.len() ==> #[trigger] v@[i]@ == combined(
                    metas_view(metas@)[i],
                    fields_view(payloads@[i]@),
                ),
            Err(_) => false,
        },
{
    if metas.len() != payloads.len() {
        return Err(Error::ArrayLengthMismatch);
    }
    let ghost ms0 = metas@;
    let ghost ps0 = payloads@;
    let n = metas.len();
    let mut ms = metas;
    let mut ps = payloads;
    let mut out: Vec<TableEntity> = Vec::new();
    while ms.len() > 0
        invariant
            ms@.len() == ps@.len(),
            out@.len() + ms@.len() == n,
            n == ms0.len() == ps0.len(),
            forall|j: int| 0 <= j < ms@.len() ==> #[trigger] ms@[j] == ms0[out@.len() + j],
            forall|j: int| 0 <= j < ps@.len() ==> #[trigger] ps@[j] == ps0[out@.len() + j],
            forall|i: int|
                0 <= i < out@.len() ==> #[trigger] out@[i]@ == combined(
                    metas_view(ms0)[i],
                    fields_view(ps0[i]@),
                ),
        decreases ms@.len(),
    {
        let ghost old_ms = ms@;
        let ghost old_ps = ps@;
        let m = ms.remove(0);
        let p = ps.remove(0);
        proof {
            assert(old_ms[0] == m);
            assert(old_ps[0] == p);
            assert(ms@ =~= old_ms.drop_first());
            assert(ps@ =~= old_ps.drop_first());
            assert forall|j: int| 0 <= j < ms@.len() implies #[trigger] ms@[j] == ms0[out@.len()
                + 1 + j] by {
                assert(ms@[j] == old_ms[j + 1]);
            }
            assert forall|j: int| 0 <= j < ps@.len() implies #[trigger] ps@[j] == ps0[out@.len()
                + 1 + j] by {
                assert(ps@[j] == old_ps[j + 1]);
            }
        }
        let e = TableEntity {
            row_key: m.row_key,
            partition_key: m.partition_key,
            etag: m.etag,
            timestamp: m.timestamp,
            payload: p,
        };
        out.push(e);
    }
    Ok(out)
}


/// Decoding an encoded record reproduces its partition key, row key and
/// payload, for every record the flat form can hold: the text `to_payload`
/// writes parses back to exactly the written fields, and those fields decode
/// to the record. The server-assigned etag and timestamp are not carried by
/// the flat form — the store, not the caller, assigns them — so the decoded
/// record holds neither.
pub proof fn lemma_round_trip(m: EntityModel)
    requires
        encodable(m),
    ensures
        parse_flat(print_object(entity_fields(m))) == Some(entity_fields(m)),
        decode_model(entity_fields(m)) matches Some(d) && d.partition_key == m.partition_key
            && d.row_key == m.row_key && d.payload == m.payload && d.etag is None
            && d.timestamp is None,
{
    let f0 = ("PartitionKey"@, JVal::Str(m.partition_key));
    let f1 = ("RowKey"@, JVal::Str(m.row_key));
    let fs = entity_fields(m);
    reveal_strlit("PartitionKey");
    reveal_strlit("RowKey");
    reveal_strlit("odata.etag");
    reveal_strlit("Timestamp");
    assert("PartitionKey"@.len() == 12);
    assert("RowKey"@.len() == 6);
    assert("odata.etag"@.len() == 10);
    assert("Timestamp"@.len() == 9);
    assert(fs.len() == m.payload.len() + 2);
    assert(fs[0] == f0);
    assert(fs[1] == f1);
    assert forall|i: int| 2 <= i < fs.len() implies #[trigger] fs[i] == m.payload[i - 2] by {}
    assert(crate::wire::fields_ok(fs)) by {
        assert forall|i: int| 0 <= i < fs.len() implies scalar_ok(#[trigger] fs[i].1) by {
            if i >= 2 {
                assert(fs[i] == m.payload[i - 2]);
                assert(scalar_ok(m.payload[i - 2].1));
            }
        }
    }
    crate::wire::lemma_parse_flat_print(fs);
    // the two keys are found where they were written
    assert(jobj_lookup(fs, "PartitionKey"@) == Some(JVal::Str(m.partition_key)));
    assert(fs.drop_first()[0] == f1);
    assert(fs[0].0 != "RowKey"@);
    assert(jobj_lookup(fs, "RowKey"@) == jobj_lookup(fs.drop_first(), "RowKey"@));
    assert(jobj_lookup(fs.drop_first(), "RowKey"@) == Some(JVal::Str(m.row_key)));
    // neither the etag nor the timestamp field was written
    assert forall|i: int| 0 <= i < fs.len() implies #[trigger] fs[i].0 != "odata.etag"@ by {
        if i >= 2 {
            assert(fs[i] == m.payload[i - 2]);
            assert(!is_meta_key(m.payload[i - 2].0));
        }
    }
    lemma_jobj_lookup_absent(fs, "odata.etag"@);
    assert forall|i: int| 0 <= i < fs.len() implies #[trigger] fs[i].0 != "Timestamp"@ by {
        if i >= 2 {
            assert(fs[i] == m.payload[i - 2]);
            assert(!is_meta_key(m.payload[i - 2].0));
        }
    }
    lemma_jobj_lookup_absent(fs, "Timestamp"@);
    // stripping the metadata leaves exactly the payload
    assert(is_meta_key(fs[0].0));
    assert(strip_meta(fs) == strip_meta(fs.drop_first()));
    assert(fs.drop_first()[0].0 == "RowKey"@);
    assert(is_meta_key(fs.drop_first()[0].0));
    assert(strip_meta(fs.drop_first()) == strip_meta(fs.drop_first().drop_first()));
    assert(fs.drop_first().drop_first() =~= m.payload);
    assert forall|i: int| 0 <= i < m.payload.len() implies !is_meta_key(
        #[trigger] m.payload[i].0,
    ) by {}
    lemma_strip_meta_absent(m.payload);
    assert(strip_meta(fs) == m.payload);
}


/// Reads a query or list response of the table store, `{"value": [...]}`:
/// every row decodes as one entity.
pub fn entries_from_value_body(data: &str) -> (r: Result<Vec<TableEntity>, Error>)
    ensures
        match r {
            Ok(v) => {
                &&& parse_keyed_array(data@, "value"@) matches Some(rows)
                &&& v@.len() == rows.len()
                &&& forall|i: int|
                    0 <= i < rows.len() ==> decode_model(#[trigger] rows[i]) == Some(v@[i]@)
            },
            Err(err) => err == Error::MalformedResponse && (parse_keyed_array(
                data@,
                "value"@,
            ) is None || (exists|i: int|
                0 <= i < parse_keyed_array(data@, "value"@).unwrap().len() && decode_model(
                    #[trigger] parse_keyed_array(data@, "value"@).unwrap()[i],
                ) is None)),
        },
{
    let rows = match parse_keyed_array_exec(data, &"value".to_owned()) {
        None => {
            return Err(Error::MalformedResponse);
        },
        Some(rows) => rows,
    };
    let ghost rows0 = crate::wire::objs_view(rows@);
    let n = rows.len();
    let mut out: Vec<TableEntity> = Vec::new();
    let mut rest = rows;
    while rest.len() > 0
        invariant
            out@.len() + rest@.len() == n,
            rows0.len() == n,
            parse_keyed_array(data@, "value"@) == Some(rows0),
            forall|j: int|
                0 <= j < out@.len() ==> decode_model(#[trigger] rows0[j]) == Some(out@[j]@),
            forall|j: int|
                0 <= j < rest@.len() ==> fields_view(#[trigger] rest@[j]@) == rows0[out@.len()
                    + j],
        decreases rest@.len(),
    {
        let ghost old_rest = rest@;
        let row = rest.remove(0);
        proof {
            assert(old_rest[0] == row);
            assert(rest@ =~= old_rest.drop_first());
            assert forall|j: int| 0 <= j < rest@.len() implies fields_view(
                #[trigger] rest@[j]@,
            ) == rows0[out@.len() + 1 + j] by {
                assert(rest@[j] == old_rest[j + 1]);
            }
        }
        match decode_fields(row) {
            Ok(e) => {
                out.push(e);
            },
            Err(_) => {
                proof {
                    let i = out@.len() as int;
                    assert(parse_keyed_array(data@, "value"@).unwrap() == rows0);
                    assert(parse_keyed_array(data@, "value"@).unwrap()[i] == rows0[i]);
                    assert(decode_model(
                        parse_keyed_array(data@, "value"@).unwrap()[i],
                    ) is None);
                }
                return Err(Error::MalformedResponse);
            },
        }
    }
    Ok(out)
}

} // verus!
