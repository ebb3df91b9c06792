use vstd::prelude::*;

verus! {

/// Mathematical model of a JSON document. Numbers keep the source literal as
/// text, so the model covers every JSON number without committing to a
/// machine representation.
pub enum JVal {
    Null,
    Bool(bool),
    Num(Seq<char>),
    Str(Seq<char>),
    Arr(Seq<JVal>),
    Obj(Seq<(Seq<char>, JVal)>),
}

/// Executable JSON value. Object fields keep their order and may repeat, as
/// on the wire. The view of a value is its `JVal` model.
#[derive(Debug, PartialEq)]
pub enum JsonValue {
    Null,
    Bool(bool),
    /// A number, held as its source literal.
    Number(String),
    Str(String),
    Array(Vec<JsonValue>),
    Object(Vec<(String, JsonValue)>),
}

/// The model of one executable value.
pub open spec fn jval_of(v: JsonValue) -> JVal
    decreases v,
{
    match v {
        JsonValue::Null => JVal::Null,
        JsonValue::Bool(b) => JVal::Bool(b),
        JsonValue::Number(t) => JVal::Num(t@),
        JsonValue::Str(s) => JVal::Str(s@),
        JsonValue::Array(a) => JVal::Arr(jvals_of(a@)),
        JsonValue::Object(fs) => JVal::Obj(fields_view(fs@)),
    }
}

/// The models of a row of executable values, in order.
pub open spec fn jvals_of(s: Seq<JsonValue>) -> Seq<JVal>
    decreases s,
{
    if s.len() == 0 {
        Seq::empty()
    } else {
        seq![jval_of(s.first())] + jvals_of(s.drop_first())
    }
}

/// The model of a field list: what `JsonValue::Object(fs)@` holds.
pub open spec fn fields_view(fs: Seq<(String, JsonValue)>) -> Seq<(Seq<char>, JVal)>
    decreases fs,
{
    if fs.len() == 0 {
        Seq::empty()
    } else {
        seq![(fs.first().0@, jval_of(fs.first().1))] + fields_view(fs.drop_first())
    }
}

impl View for JsonValue {
    type V = JVal;

    open spec fn view(&self) -> JVal {
        jval_of(*self)
    }
}

/// First value bound to `key` in an object's field list, if any.
pub open spec fn jobj_lookup(fs: Seq<(Seq<char>, JVal)>, key: Seq<char>) -> Option<JVal>
    decreases fs.len(),
{
    if fs.len() == 0 {
        None
    } else if fs[0].0 == key {
        Some(fs[0].1)
    } else {
        jobj_lookup(fs.drop_first(), key)
    }
}

/// `fields_view` maps the field list pointwise.
pub proof fn lemma_fields_view_index(fs: Seq<(String, JsonValue)>)
    ensures
        fields_view(fs).len() == fs.len(),
        forall|i: int|
            0 <= i < fs.len() ==> #[trigger] fields_view(fs)[i] == (fs[i].0@, jval_of(fs[i].1)),
    decreases fs.len(),
{
    if fs.len() > 0 {
        lemma_fields_view_index(fs.drop_first());
        assert forall|i: int| 0 <= i < fs.len() implies #[trigger] fields_view(fs)[i] == (
            fs[i].0@,
            jval_of(fs[i].1),
        ) by {
            if i > 0 {
                assert(fs.drop_first()[i - 1] == fs[i]);
            }
        }
    }
}

/// `jvals_of` maps the row pointwise.
pub proof fn lemma_jvals_of_index(s: Seq<JsonValue>)
    ensures
        jvals_of(s).len() == s.len(),
        forall|i: int| 0 <= i < s.len() ==> #[trigger] jvals_of(s)[i] == jval_of(s[i]),
    decreases s.len(),
{
    if s.len() > 0 {
        lemma_jvals_of_index(s.drop_first());
        assert forall|i: int| 0 <= i < s.len() implies #[trigger] jvals_of(s)[i] == jval_of(
            s[i],
        ) by {
            if i > 0 {
                assert(s.drop_first()[i - 1] == s[i]);
            }
        }
    }
}

/// Looking a key up scans the fields front to back.
pub proof fn lemma_jobj_lookup_step(fs: Seq<(Seq<char>, JVal)>, key: Seq<char>, i: int)
    requires
        0 <= i <= fs.len(),
        forall|j: int| 0 <= j < i ==> #[trigger] fs[j].0 != key,
    ensures
        jobj_lookup(fs, key) == jobj_lookup(fs.skip(i), key),
    decreases i,
{
    if i > 0 {
        lemma_jobj_lookup_step(fs, key, i - 1);
        assert(fs[i - 1].0 != key);
        assert(fs.skip(i - 1).len() > 0);
        assert(fs.skip(i - 1)[0] == fs[i - 1]);
        assert(jobj_lookup(fs.skip(i - 1), key) == jobj_lookup(
            fs.skip(i - 1).drop_first(),
            key,
        ));
        assert(fs.skip(i - 1).drop_first() =~= fs.skip(i));
    } else {
        assert(fs.skip(0) =~= fs);
    }
}

/// Looks a field up by name, returning the first match, as `jobj_lookup`
/// does on the model.
pub fn fields_get<'a>(fs: &'a Vec<(String, JsonValue)>, key: &String) -> (r: Option<
    &'a JsonValue,
>)
    ensures
        match r {
            Some(v) => jobj_lookup(fields_view(fs@), key@) == Some(v@),
            None => jobj_lookup(fields_view(fs@), key@) is None,
        },
{
    proof {
        lemma_fields_view_index(fs@);
    }
    let ghost m = fields_view(fs@);
    let mut i: usize = 0;
    while i < fs.len()
        invariant
            0 <= i <= fs.len(),
            m == fields_view(fs@),
            m.len() == fs@.len(),
            forall|j: int| 0 <= j < fs@.len() ==> #[trigger] m[j] == (fs@[j].0@, jval_of(fs@[j].1)),
            forall|j: int| 0 <= j < i ==> #[trigger] m[j].0 != key@,
        decreases fs.len() - i,
    {
        if fs[i].0.eq(key) {
            proof {
                lemma_jobj_lookup_step(m, key@, i as int);
                assert(m.skip(i as int).len() > 0);
                assert(m.skip(i as int)[0] == m[i as int]);
                assert(m[i as int] == (fs@[i as int].0@, jval_of(fs@[i as int].1)));
                assert(m.skip(i as int)[0].0 == key@);
                assert(jobj_lookup(m, key@) == Some(jval_of(fs@[i as int].1)));
            }
            return Some(&fs[i].1);
        }
        proof {
            assert(m[i as int] == (fs@[i as int].0@, jval_of(fs@[i as int].1)));
            assert(m[i as int].0 != key@);
        }
        i = i + 1;
    }
    proof {
        lemma_jobj_lookup_step(m, key@, fs@.len() as int);
        assert(m.skip(fs@.len() as int) =~= Seq::<(Seq<char>, JVal)>::empty());
    }
    None
}


/// A key bound nowhere in the fields is not found.
pub proof fn lemma_jobj_lookup_absent(fs: Seq<(Seq<char>, JVal)>, key: Seq<char>)
    requires
        forall|i: int| 0 <= i < fs.len() ==> #[trigger] fs[i].0 != key,
    ensures
        jobj_lookup(fs, key) is None,
    decreases fs.len(),
{
    if fs.len() > 0 {
        assert(fs[0].0 != key);
        assert forall|i: int| 0 <= i < fs.drop_first().len() implies #[trigger] fs.drop_first()[i].0
            != key by {
            assert(fs.drop_first()[i] == fs[i + 1]);
        }
        lemma_jobj_lookup_absent(fs.drop_first(), key);
    }
}


/// Takes the first field bound to `key` out of the list, returning its
/// value, as `jobj_lookup` finds it on the model.
pub fn fields_take(fs: &mut Vec<(String, JsonValue)>, key: &String) -> (r: Option<JsonValue>)
    ensures
        match r {
            Some(v) => jobj_lookup(fields_view(old(fs)@), key@) == Some(v@),
            None => jobj_lookup(fields_view(old(fs)@), key@) is None,
        },
{
    proof {
        lemma_fields_view_index(old(fs)@);
    }
    let ghost m = fields_view(fs@);
    let mut i: usize = 0;
    while i < fs.len()
        invariant
            fs@ == old(fs)@,
            0 <= i <= fs@.len(),
            m == fields_view(fs@),
            m.len() == fs@.len(),
            forall|j: int| 0 <= j < fs@.len() ==> #[trigger] m[j] == (fs@[j].0@, jval_of(fs@[j].1)),
            forall|j: int| 0 <= j < i ==> #[trigger] m[j].0 != key@,
        decreases fs@.len() - i,
    {
        if fs[i].0.eq(key) {
            proof {
                lemma_jobj_lookup_step(m, key@, i as int);
                assert(m.skip(i as int).len() > 0);
                assert(m.skip(i as int)[0] == m[i as int]);
                assert(jobj_lookup(m, key@) == Some(jval_of(fs@[i as int].1)));
            }
            let pair = fs.remove(i);
            return Some(pair.1);
        }
        proof {
            assert(m[i as int] == (fs@[i as int].0@, jval_of(fs@[i as int].1)));
            assert(m[i as int].0 != key@);
        }
        i = i + 1;
    }
    proof {
        lemma_jobj_lookup_step(m, key@, fs@.len() as int);
        assert(m.skip(fs@.len() as int) =~= Seq::<(Seq<char>, JVal)>::empty());
    }
    None
}

} // verus!
