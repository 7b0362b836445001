//! The dynamic configuration value: an immutable structured tree of
//! scalars, arrays and string-keyed objects, together with its
//! mathematical model.
//!
//! Object fields are kept as an ordered association list, so that a
//! value has one canonical in-memory shape and reloading identical
//! sources yields an identical tree.

use vstd::prelude::*;

verus! {

/// One structured configuration value, as loaded from a source text.
#[derive(Debug, PartialEq)]
pub enum ConfigValue {
    Null,
    Bool(bool),
    Int(i64),
    Str(String),
    Arr(Vec<ConfigValue>),
    Obj(Vec<(String, ConfigValue)>),
}

/// The mathematical model of a `ConfigValue`: the same tree over
/// `Seq` and `int`, used by every contract in this crate.
pub enum ValModel {
    Null,
    Bool(bool),
    Int(int),
    Str(Seq<char>),
    Arr(Seq<ValModel>),
    Obj(Seq<(Seq<char>, ValModel)>),
}

impl ConfigValue {
    /// The model of this value.
    pub open spec fn model(self) -> ValModel
        decreases self,
    {
        match self {
            ConfigValue::Null => ValModel::Null,
            ConfigValue::Bool(b) => ValModel::Bool(b),
            ConfigValue::Int(i) => ValModel::Int(i as int),
            ConfigValue::Str(s) => ValModel::Str(s@),
            ConfigValue::Arr(items) => ValModel::Arr(model_elems(items@)),
            ConfigValue::Obj(fields) => ValModel::Obj(model_fields(fields@)),
        }
    }
}

/// The models of a sequence of values, in order.
pub open spec fn model_elems(items: Seq<ConfigValue>) -> Seq<ValModel>
    decreases items,
{
    if items.len() == 0 {
        Seq::empty()
    } else {
        model_elems(items.subrange(0, items.len() - 1)).push(items[items.len() - 1].model())
    }
}

/// The models of a sequence of object fields, in order.
pub open spec fn model_fields(fields: Seq<(String, ConfigValue)>) -> Seq<(Seq<char>, ValModel)>
    decreases fields,
{
    if fields.len() == 0 {
        Seq::empty()
    } else {
        model_fields(fields.subrange(0, fields.len() - 1)).push(
            (fields[fields.len() - 1].0@, fields[fields.len() - 1].1.model()),
        )
    }
}

/// The value bound to `key` in an ordered field list: the first
/// binding wins.
pub open spec fn lookup_model(fields: Seq<(Seq<char>, ValModel)>, key: Seq<char>) -> Option<
    ValModel,
>
    decreases fields.len(),
{
    if fields.len() == 0 {
        None
    } else if fields[0].0 == key {
        Some(fields[0].1)
    } else {
        lookup_model(fields.drop_first(), key)
    }
}

/// Binds `key` to `val`: the first existing binding of `key` is
/// replaced in place, or the binding is appended when `key` is new.
pub open spec fn upsert_model(
    fields: Seq<(Seq<char>, ValModel)>,
    key: Seq<char>,
    val: ValModel,
) -> Seq<(Seq<char>, ValModel)>
    decreases fields.len(),
{
    if fields.len() == 0 {
        seq![(key, val)]
    } else if fields[0].0 == key {
        seq![(key, val)] + fields.drop_first()
    } else {
        seq![fields[0]] + upsert_model(fields.drop_first(), key, val)
    }
}

/// When `key` is absent, an upsert is an append.
pub proof fn lemma_upsert_absent(fields: Seq<(Seq<char>, ValModel)>, key: Seq<char>, val: ValModel)
    requires
        forall|j: int| 0 <= j < fields.len() ==> fields[j].0 != key,
    ensures
        upsert_model(fields, key, val) =~= fields.push((key, val)),
    decreases fields.len(),
{
    if fields.len() > 0 {
        assert(forall|j: int|
            0 <= j < fields.drop_first().len() ==> fields.drop_first()[j] == fields[j + 1]);
        lemma_upsert_absent(fields.drop_first(), key, val);
    }
}

/// When the first binding of `key` sits at index `i`, an upsert is an
/// in-place update there.
pub proof fn lemma_upsert_found(
    fields: Seq<(Seq<char>, ValModel)>,
    key: Seq<char>,
    val: ValModel,
    i: int,
)
    requires
        0 <= i < fields.len(),
        fields[i].0 == key,
        forall|j: int| 0 <= j < i ==> fields[j].0 != key,
    ensures
        upsert_model(fields, key, val) =~= fields.update(i, (key, val)),
    decreases fields.len(),
{
    if i == 0 {
    } else {
        assert(forall|j: int|
            0 <= j < fields.drop_first().len() ==> fields.drop_first()[j] == fields[j + 1]);
        lemma_upsert_found(fields.drop_first(), key, val, i - 1);
    }
}

/// An upsert binds `key` to `val` and leaves every other key alone.
pub proof fn lemma_upsert_lookup(
    fields: Seq<(Seq<char>, ValModel)>,
    key: Seq<char>,
    val: ValModel,
    probe: Seq<char>,
)
    ensures
        lookup_model(upsert_model(fields, key, val), probe) == if probe == key {
            Some(val)
        } else {
            lookup_model(fields, probe)
        },
    decreases fields.len(),
{
    if fields.len() == 0 {
        assert(upsert_model(fields, key, val) == seq![(key, val)]);
        assert(lookup_model(seq![(key, val)], probe) == if probe == key {
            Some(val)
        } else {
            lookup_model(seq![(key, val)].drop_first(), probe)
        });
        assert(seq![(key, val)].drop_first() =~= Seq::<(Seq<char>, ValModel)>::empty());
    } else if fields[0].0 == key {
        let r = seq![(key, val)] + fields.drop_first();
        assert(r[0] == (key, val));
        assert(r.drop_first() =~= fields.drop_first());
    } else {
        let r = seq![fields[0]] + upsert_model(fields.drop_first(), key, val);
        assert(r[0] == fields[0]);
        assert(r.drop_first() =~= upsert_model(fields.drop_first(), key, val));
        lemma_upsert_lookup(fields.drop_first(), key, val, probe);
    }
}

/// The value bound to `key` in any ordered association list; the
/// first binding wins.
pub open spec fn assoc_lookup<V>(entries: Seq<(Seq<char>, V)>, key: Seq<char>) -> Option<V>
    decreases entries.len(),
{
    if entries.len() == 0 {
        None
    } else if entries[0].0 == key {
        Some(entries[0].1)
    } else {
        assoc_lookup(entries.drop_first(), key)
    }
}

/// Where the first binding of `key` sits at index `i`, lookup yields
/// that binding's value.
pub proof fn lemma_assoc_found<V>(entries: Seq<(Seq<char>, V)>, key: Seq<char>, i: int)
    requires
        0 <= i < entries.len(),
        entries[i].0 == key,
        forall|j: int| 0 <= j < i ==> entries[j].0 != key,
    ensures
        assoc_lookup(entries, key) == Some(entries[i].1),
    decreases entries.len(),
{
    if i > 0 {
        assert(forall|j: int|
            0 <= j < entries.drop_first().len() ==> entries.drop_first()[j] == entries[j + 1]);
        lemma_assoc_found(entries.drop_first(), key, i - 1);
    }
}

/// Where no binding carries `key`, lookup yields nothing.
pub proof fn lemma_assoc_absent<V>(entries: Seq<(Seq<char>, V)>, key: Seq<char>)
    requires
        forall|j: int| 0 <= j < entries.len() ==> entries[j].0 != key,
    ensures
        assoc_lookup(entries, key) is None,
    decreases entries.len(),
{
    if entries.len() > 0 {
        assert(forall|j: int|
            0 <= j < entries.drop_first().len() ==> entries.drop_first()[j] == entries[j + 1]);
        lemma_assoc_absent(entries.drop_first(), key);
    }
}

pub proof fn lemma_model_elems_len(items: Seq<ConfigValue>)
    ensures
        model_elems(items).len() == items.len(),
        forall|i: int| 0 <= i < items.len() ==> model_elems(items)[i] == items[i].model(),
    decreases items,
{
    if items.len() > 0 {
        lemma_model_elems_len(items.subrange(0, items.len() - 1));
        assert forall|i: int| 0 <= i < items.len() implies model_elems(items)[i] == items[
            i
        ].model() by {
            if i < items.len() - 1 {
                assert(items.subrange(0, items.len() - 1)[i] == items[i]);
            }
        }
    }
}

pub proof fn lemma_model_fields_len(fields: Seq<(String, ConfigValue)>)
    ensures
        model_fields(fields).len() == fields.len(),
        forall|i: int|
            0 <= i < fields.len() ==> model_fields(fields)[i] == (
            fields[i].0@,
            fields[i].1.model(),
            ),
    decreases fields,
{
    if fields.len() > 0 {
        lemma_model_fields_len(fields.subrange(0, fields.len() - 1));
        assert forall|i: int| 0 <= i < fields.len() implies model_fields(fields)[i] == (
        fields[i].0@,
        fields[i].1.model(),
        ) by {
            if i < fields.len() - 1 {
                assert(fields.subrange(0, fields.len() - 1)[i] == fields[i]);
            }
        }
    }
}

pub proof fn lemma_model_elems_push(items: Seq<ConfigValue>, x: ConfigValue)
    ensures
        model_elems(items.push(x)) =~= model_elems(items).push(x.model()),
{
    assert(items.push(x).subrange(0, items.len() as int) =~= items);
    assert(items.push(x)[items.len() as int] == x);
}

pub proof fn lemma_model_fields_push(fields: Seq<(String, ConfigValue)>, k: String, v: ConfigValue)
    ensures
        model_fields(fields.push((k, v))) =~= model_fields(fields).push((k@, v.model())),
{
    assert(fields.push((k, v)).subrange(0, fields.len() as int) =~= fields);
    assert(fields.push((k, v))[fields.len() as int] == (k, v));
}

pub proof fn lemma_model_fields_update(
    fields: Seq<(String, ConfigValue)>,
    i: int,
    k: String,
    v: ConfigValue,
)
    requires
        0 <= i < fields.len(),
    ensures
        model_fields(fields.update(i, (k, v))) =~= model_fields(fields).update(
            i,
            (k@, v.model()),
        ),
{
    lemma_model_fields_len(fields);
    lemma_model_fields_len(fields.update(i, (k, v)));
}

/// Where the first binding of `key` sits at index `i`, lookup yields
/// that binding's value.
pub proof fn lemma_lookup_found(fields: Seq<(Seq<char>, ValModel)>, key: Seq<char>, i: int)
    requires
        0 <= i < fields.len(),
        fields[i].0 == key,
        forall|j: int| 0 <= j < i ==> fields[j].0 != key,
    ensures
        lookup_model(fields, key) == Some(fields[i].1),
    decreases fields.len(),
{
    if i > 0 {
        assert(forall|j: int|
            0 <= j < fields.drop_first().len() ==> fields.drop_first()[j] == fields[j + 1]);
        lemma_lookup_found(fields.drop_first(), key, i - 1);
    }
}

/// Where no binding carries `key`, lookup yields nothing.
pub proof fn lemma_lookup_absent(fields: Seq<(Seq<char>, ValModel)>, key: Seq<char>)
    requires
        forall|j: int| 0 <= j < fields.len() ==> fields[j].0 != key,
    ensures
        lookup_model(fields, key) is None,
    decreases fields.len(),
{
    if fields.len() > 0 {
        assert(forall|j: int|
            0 <= j < fields.drop_first().len() ==> fields.drop_first()[j] == fields[j + 1]);
        lemma_lookup_absent(fields.drop_first(), key);
    }
}

/// Looks `key` up in an ordered field list; the first binding wins.
pub fn get_field<'a>(fields: &'a Vec<(String, ConfigValue)>, key: &String) -> (r: Option<
    &'a ConfigValue,
>)
    ensures
        match r {
            Some(v) => lookup_model(model_fields(fields@), key@) == Some(v.model()),
            None => lookup_model(model_fields(fields@), key@) is None,
        },
{
    proof {
        lemma_model_fields_len(fields@);
    }
    let n = fields.len();
    let mut i: usize = 0;
    while i < n
        invariant
            n == fields.len(),
            0 <= i <= n,
            forall|j: int| 0 <= j < i ==> fields@[j].0@ != key@,
        decreases n - i,
    {
        if fields[i].0 == *key {
            proof {
                lemma_model_fields_len(fields@);
                lemma_lookup_found(model_fields(fields@), key@, i as int);
            }
            return Some(&fields[i].1);
        }
        i = i + 1;
    }
    proof {
        lemma_model_fields_len(fields@);
        lemma_lookup_absent(model_fields(fields@), key@);
    }
    None
}

/// Binds `key` to `val` in an ordered field list: replaces the first
/// existing binding, or appends a new one.
pub fn upsert_field(fields: &mut Vec<(String, ConfigValue)>, key: String, val: ConfigValue)
    ensures
        model_fields(final(fields)@) =~= upsert_model(
            model_fields(old(fields)@),
            key@,
            val.model(),
        ),
{
    proof {
        lemma_model_fields_len(fields@);
    }
    let n = fields.len();
    let mut i: usize = 0;
    while i < n
        invariant
            n == fields.len(),
            0 <= i <= n,
            *fields == *old(fields),
            forall|j: int| 0 <= j < i ==> fields@[j].0@ != key@,
        decreases n - i,
    {
        if fields[i].0 == key {
            proof {
                lemma_model_fields_len(fields@);
                lemma_upsert_found(model_fields(fields@), key@, val.model(), i as int);
                lemma_model_fields_update(fields@, i as int, key, val);
            }
            fields.set(i, (key, val));
            return ;
        }
        i = i + 1;
    }
    proof {
        lemma_model_fields_len(fields@);
        lemma_upsert_absent(model_fields(fields@), key@, val.model());
        lemma_model_fields_push(fields@, key, val);
    }
    fields.push((key, val));
}

impl ConfigValue {
    /// Whether this value is an object.
    pub fn is_object(&self) -> (r: bool)
        ensures
            r == (self.model() is Obj),
    {
        match self {
            ConfigValue::Obj(fields) => true,
            _ => false,
        }
    }

    /// Whether this value is an array.
    pub fn is_array(&self) -> (r: bool)
        ensures
            r == (self.model() is Arr),
    {
        match self {
            ConfigValue::Arr(items) => true,
            _ => false,
        }
    }

    /// Whether this value is a string.
    pub fn is_string(&self) -> (r: bool)
        ensures
            r == (self.model() is Str),
    {
        match self {
            ConfigValue::Str(text) => true,
            _ => false,
        }
    }

    /// Whether this value is a number.
    pub fn is_number(&self) -> (r: bool)
        ensures
            r == (self.model() is Int),
    {
        match self {
            ConfigValue::Int(i) => true,
            _ => false,
        }
    }

    /// The text of a string value.
    pub fn as_str(&self) -> (r: Option<&String>)
        ensures
            match r {
                Some(s) => self.model() == ValModel::Str(s@),
                None => !(self.model() is Str),
            },
    {
        match self {
            ConfigValue::Str(text) => Some(text),
            _ => None,
        }
    }

    /// The number a numeric value holds.
    pub fn as_i64(&self) -> (r: Option<i64>)
        ensures
            match r {
                Some(i) => self.model() == ValModel::Int(i as int),
                None => !(self.model() is Int),
            },
    {
        match self {
            ConfigValue::Int(i) => Some(*i),
            _ => None,
        }
    }

    /// The value under `key` of an object value.
    pub fn get<'a>(&'a self, key: &String) -> (r: Option<&'a ConfigValue>)
        ensures
            match r {
                Some(w) => self.model() matches ValModel::Obj(fs) && lookup_model(fs, key@)
                    == Some(w.model()),
                None => match self.model() {
                    ValModel::Obj(fs) => lookup_model(fs, key@) is None,
                    _ => true,
                },
            },
    {
        match self {
            ConfigValue::Obj(fields) => get_field(fields, key),
            _ => None,
        }
    }

    /// The element at `i` of an array value.
    pub fn at<'a>(&'a self, i: usize) -> (r: Option<&'a ConfigValue>)
        ensures
            match r {
                Some(w) => self.model() matches ValModel::Arr(es) && i < es.len() && es[i as int]
                    == w.model(),
                None => match self.model() {
                    ValModel::Arr(es) => i >= es.len(),
                    _ => true,
                },
            },
    {
        match self {
            ConfigValue::Arr(items) => {
                proof {
                    lemma_model_elems_len(items@);
                }
                if i < items.len() {
                    Some(&items[i])
                } else {
                    None
                }
            },
            _ => None,
        }
    }
}

/// Deep equality of two values: true exactly when their models agree.
pub fn value_eq(a: &ConfigValue, b: &ConfigValue) -> (r: bool)
    ensures
        r == (a.model() == b.model()),
    decreases a,
{
    match a {
        ConfigValue::Null => match b {
            ConfigValue::Null => {
                return true;
            },
            _ => {
                return false;
            },
        },
        ConfigValue::Bool(x) => match b {
            ConfigValue::Bool(y) => {
                return x == y;
            },
            _ => {
                return false;
            },
        },
        ConfigValue::Int(x) => match b {
            ConfigValue::Int(y) => {
                return x == y;
            },
            _ => {
                return false;
            },
        },
        ConfigValue::Str(x) => match b {
            ConfigValue::Str(y) => {
                return *x == *y;
            },
            _ => {
                return false;
            },
        },
        ConfigValue::Arr(x) => match b {
            ConfigValue::Arr(y) => {
                return elems_eq(x, y);
            },
            _ => {
                return false;
            },
        },
        ConfigValue::Obj(x) => match b {
            ConfigValue::Obj(y) => {
                return fields_eq(x, y);
            },
            _ => {
                return false;
            },
        },
    }
}

fn elems_eq(a: &Vec<ConfigValue>, b: &Vec<ConfigValue>) -> (r: bool)
    ensures
        r == (model_elems(a@) == model_elems(b@)),
    decreases a,
{
    proof {
        lemma_model_elems_len(a@);
        lemma_model_elems_len(b@);
    }
    let n = a.len();
    if n != b.len() {
        proof {
            assert(model_elems(a@).len() != model_elems(b@).len());
        }
        return false;
    }
    let mut i: usize = 0;
    while i < n
        invariant
            n == a.len(),
            n == b.len(),
            0 <= i <= n,
            forall|j: int| 0 <= j < i ==> a@[j].model() == b@[j].model(),
        decreases n - i,
    {
        if !value_eq(&a[i], &b[i]) {
            proof {
                lemma_model_elems_len(a@);
                lemma_model_elems_len(b@);
                assert(model_elems(a@)[i as int] != model_elems(b@)[i as int]);
            }
            return false;
        }
        i = i + 1;
    }
    proof {
        lemma_model_elems_len(a@);
        lemma_model_elems_len(b@);
        assert(model_elems(a@) =~= model_elems(b@));
    }
    true
}

fn fields_eq(a: &Vec<(String, ConfigValue)>, b: &Vec<(String, ConfigValue)>) -> (r: bool)
    ensures
        r == (model_fields(a@) == model_fields(b@)),
    decreases a,
{
    proof {
        lemma_model_fields_len(a@);
        lemma_model_fields_len(b@);
    }
    let n = a.len();
    if n != b.len() {
        proof {
            assert(model_fields(a@).len() != model_fields(b@).len());
        }
        return false;
    }
    let mut i: usize = 0;
    while i < n
        invariant
            n == a.len(),
            n == b.len(),
            0 <= i <= n,
            forall|j: int|
                0 <= j < i ==> (a@[j].0@, a@[j].1.model()) == (b@[j].0@, b@[j].1.model()),
        decreases n - i,
    {
        let keys_agree = a[i].0 == b[i].0;
        if !keys_agree || !value_eq(&a[i].1, &b[i].1) {
            proof {
                lemma_model_fields_len(a@);
                lemma_model_fields_len(b@);
                assert(model_fields(a@)[i as int] != model_fields(b@)[i as int]);
            }
            return false;
        }
        i = i + 1;
    }
    proof {
        lemma_model_fields_len(a@);
        lemma_model_fields_len(b@);
        assert(model_fields(a@) =~= model_fields(b@));
    }
    true
}

/// A deep copy whose model is the model of the original.
pub fn clone_value(v: &ConfigValue) -> (r: ConfigValue)
    ensures
        r.model() == v.model(),
    decreases v,
{
    match v {
        ConfigValue::Null => ConfigValue::Null,
        ConfigValue::Bool(b) => ConfigValue::Bool(*b),
        ConfigValue::Int(i) => ConfigValue::Int(*i),
        ConfigValue::Str(s) => ConfigValue::Str(s.clone()),
        ConfigValue::Arr(items) => ConfigValue::Arr(clone_elems(items)),
        ConfigValue::Obj(fields) => ConfigValue::Obj(clone_fields(fields)),
    }
}

fn clone_elems(items: &Vec<ConfigValue>) -> (r: Vec<ConfigValue>)
    ensures
        model_elems(r@) == model_elems(items@),
    decreases items,
{
    let n = items.len();
    let mut out: Vec<ConfigValue> = Vec::new();
    let mut i: usize = 0;
    while i < n
        invariant
            n == items.len(),
            0 <= i <= n,
            out@.len() == i,
            forall|j: int| 0 <= j < i ==> out@[j].model() == items@[j].model(),
        decreases n - i,
    {
        out.push(clone_value(&items[i]));
        i = i + 1;
    }
    proof {
        lemma_model_elems_len(items@);
        lemma_model_elems_len(out@);
        assert(model_elems(out@) =~= model_elems(items@));
    }
    out
}

fn clone_fields(fields: &Vec<(String, ConfigValue)>) -> (r: Vec<(String, ConfigValue)>)
    ensures
        model_fields(r@) == model_fields(fields@),
    decreases fields,
{
    let n = fields.len();
    let mut out: Vec<(String, ConfigValue)> = Vec::new();
    let mut i: usize = 0;
    while i < n
        invariant
            n == fields.len(),
            0 <= i <= n,
            out@.len() == i,
            forall|j: int|
                0 <= j < i ==> (out@[j].0@, out@[j].1.model()) == (
                fields@[j].0@,
                fields@[j].1.model(),
                ),
        decreases n - i,
    {
        let key = fields[i].0.clone();
        let val = clone_value(&fields[i].1);
        out.push((key, val));
        i = i + 1;
    }
    proof {
        lemma_model_fields_len(fields@);
        lemma_model_fields_len(out@);
        assert(model_fields(out@) =~= model_fields(fields@));
    }
    out
}

} // verus!
