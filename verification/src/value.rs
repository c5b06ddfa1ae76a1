//! The document value model: a dynamic tagged value with object fields in
//! document order, path-based lookup, and structural equality.

use vstd::prelude::*;

verus! {

broadcast use vstd::std_specs::vec::group_vec_axioms, vstd::seq::group_seq_axioms;

/// Mathematical model of a document value. Object fields keep document
/// order; a key is looked up at its first occurrence.
pub enum SpecValue {
    Null,
    Bool(bool),
    Int(int),
    /// A number that is not an integer, kept as the literal text of its
    /// document or evaluator token. The engine never computes with such
    /// numbers; it carries them through and hands them to the evaluator.
    Float(Seq<char>),
    Text(Seq<char>),
    Array(Seq<SpecValue>),
    Object(Seq<(Seq<char>, SpecValue)>),
}

/// A document value: null, boolean, number (integer, or non-integer kept
/// as its literal text), string, array, or object with ordered fields.
#[derive(Debug)]
pub enum Value {
    Null,
    Bool(bool),
    Int(i64),
    /// A non-integer number's literal text, carried through unchanged;
    /// two such numbers are equal exactly when their texts are.
    Float(String),
    Text(String),
    Array(Vec<Value>),
    Object(Vec<(String, Value)>),
}

/// The model of a value.
pub open spec fn view_value(v: Value) -> SpecValue
    decreases v,
{
    match v {
        Value::Null => SpecValue::Null,
        Value::Bool(b) => SpecValue::Bool(b),
        Value::Int(i) => SpecValue::Int(i as int),
        Value::Float(t) => SpecValue::Float(t@),
        Value::Text(s) => SpecValue::Text(s@),
        Value::Array(items) => {
            proof {
                assert(decreases_to!(v => items));
                assert(decreases_to!(items => items@));
            }
            SpecValue::Array(view_items(items@))
        },
        Value::Object(fields) => {
            proof {
                assert(decreases_to!(v => fields));
                assert(decreases_to!(fields => fields@));
            }
            SpecValue::Object(view_fields(fields@))
        },
    }
}

/// The model of an array's element list.
pub open spec fn view_items(items: Seq<Value>) -> Seq<SpecValue>
    decreases items,
{
    if items.len() == 0 {
        Seq::empty()
    } else {
        let last = items[items.len() - 1];
        proof {
            assert(decreases_to!(items => items.subrange(0, items.len() - 1)));
            assert(decreases_to!(items => items[items.len() - 1]));
        }
        view_items(items.subrange(0, items.len() - 1)).push(view_value(last))
    }
}

/// The model of an object's field list.
pub open spec fn view_fields(fields: Seq<(String, Value)>) -> Seq<(Seq<char>, SpecValue)>
    decreases fields,
{
    if fields.len() == 0 {
        Seq::empty()
    } else {
        let last = fields[fields.len() - 1];
        proof {
            assert(decreases_to!(fields => fields.subrange(0, fields.len() - 1)));
            assert(decreases_to!(fields => fields[fields.len() - 1]));
            assert(decreases_to!(last => last.1));
        }
        view_fields(fields.subrange(0, fields.len() - 1)).push((last.0@, view_value(last.1)))
    }
}

impl View for Value {
    type V = SpecValue;

    open spec fn view(&self) -> SpecValue {
        view_value(*self)
    }
}

/// The element list of an array model, position by position.
pub proof fn lemma_view_items(items: Seq<Value>)
    ensures
        view_items(items) == Seq::new(items.len(), |i: int| items[i]@),
    decreases items,
{
    if items.len() > 0 {
        lemma_view_items(items.subrange(0, items.len() - 1));
        assert(view_items(items) =~= Seq::new(items.len(), |i: int| items[i]@));
    } else {
        assert(view_items(items) =~= Seq::new(items.len(), |i: int| items[i]@));
    }
}

/// The field list of an object model, position by position.
pub proof fn lemma_view_fields(fields: Seq<(String, Value)>)
    ensures
        view_fields(fields) == Seq::new(fields.len(), |i: int| (fields[i].0@, fields[i].1@)),
    decreases fields,
{
    if fields.len() > 0 {
        lemma_view_fields(fields.subrange(0, fields.len() - 1));
        assert(view_fields(fields) =~= Seq::new(
            fields.len(),
            |i: int| (fields[i].0@, fields[i].1@),
        ));
    } else {
        assert(view_fields(fields) =~= Seq::new(
            fields.len(),
            |i: int| (fields[i].0@, fields[i].1@),
        ));
    }
}

/// Index of the first field with the given key, or -1 when the key is
/// absent.
pub open spec fn obj_index_of(fields: Seq<(Seq<char>, SpecValue)>, key: Seq<char>) -> int
    decreases fields.len(),
{
    if fields.len() == 0 {
        -1
    } else if fields[0].0 == key {
        0
    } else {
        let rest = obj_index_of(fields.drop_first(), key);
        if rest == -1 {
            -1
        } else {
            rest + 1
        }
    }
}

pub open spec fn obj_has_key(fields: Seq<(Seq<char>, SpecValue)>, key: Seq<char>) -> bool {
    obj_index_of(fields, key) != -1
}

/// Value of the first field with the given key.
pub open spec fn obj_lookup(fields: Seq<(Seq<char>, SpecValue)>, key: Seq<char>) -> Option<
    SpecValue,
> {
    if obj_has_key(fields, key) {
        Some(fields[obj_index_of(fields, key)].1)
    } else {
        None
    }
}

/// Insertion in the style of an ordered map: an existing key keeps its
/// position and takes the new value; a new key is appended.
pub open spec fn obj_insert(
    fields: Seq<(Seq<char>, SpecValue)>,
    key: Seq<char>,
    val: SpecValue,
) -> Seq<(Seq<char>, SpecValue)> {
    if obj_has_key(fields, key) {
        fields.update(obj_index_of(fields, key), (key, val))
    } else {
        fields.push((key, val))
    }
}

/// Removal of the first field with the given key, if any.
pub open spec fn obj_remove(fields: Seq<(Seq<char>, SpecValue)>, key: Seq<char>) -> Seq<
    (Seq<char>, SpecValue),
> {
    if obj_has_key(fields, key) {
        fields.remove(obj_index_of(fields, key))
    } else {
        fields
    }
}

pub proof fn lemma_obj_index_of_bounds(fields: Seq<(Seq<char>, SpecValue)>, key: Seq<char>)
    ensures
        obj_index_of(fields, key) == -1 || (0 <= obj_index_of(fields, key) < fields.len()),
        obj_index_of(fields, key) != -1 ==> fields[obj_index_of(fields, key)].0 == key,
        obj_index_of(fields, key) != -1 ==> forall|j: int|
            0 <= j < obj_index_of(fields, key) ==> fields[j].0 != key,
        obj_index_of(fields, key) == -1 ==> forall|j: int|
            0 <= j < fields.len() ==> fields[j].0 != key,
    decreases fields.len(),
{
    if fields.len() > 0 && fields[0].0 != key {
        lemma_obj_index_of_bounds(fields.drop_first(), key);
        assert forall|j: int| 1 <= j < fields.len() implies fields.drop_first()[j - 1]
            == fields[j] by {}
    }
}

/// A key that occurs nowhere has index -1.
pub proof fn lemma_obj_index_of_none(fields: Seq<(Seq<char>, SpecValue)>, key: Seq<char>)
    requires
        forall|j: int| 0 <= j < fields.len() ==> fields[j].0 != key,
    ensures
        obj_index_of(fields, key) == -1,
    decreases fields.len(),
{
    if fields.len() > 0 {
        lemma_obj_index_of_none(fields.drop_first(), key);
    }
}

/// The first position that carries the key is the index the lookup finds.
pub proof fn lemma_obj_index_of_first(fields: Seq<(Seq<char>, SpecValue)>, key: Seq<char>, i: int)
    requires
        0 <= i < fields.len(),
        fields[i].0 == key,
        forall|j: int| 0 <= j < i ==> fields[j].0 != key,
    ensures
        obj_index_of(fields, key) == i,
    decreases fields.len(),
{
    if i > 0 {
        lemma_obj_index_of_first(fields.drop_first(), key, i - 1);
    }
}


/// Looking up the inserted key finds the inserted value.
pub proof fn lemma_obj_insert_same(
    fields: Seq<(Seq<char>, SpecValue)>,
    key: Seq<char>,
    val: SpecValue,
)
    ensures
        obj_lookup(obj_insert(fields, key, val), key) == Some(val),
    decreases fields.len(),
{
    lemma_obj_index_of_bounds(fields, key);
    if obj_has_key(fields, key) {
        let i = obj_index_of(fields, key);
        lemma_obj_index_of_first(fields.update(i, (key, val)), key, i);
    } else {
        lemma_obj_index_of_first(fields.push((key, val)), key, fields.len() as int);
    }
}

/// Insertion under one key leaves every other key's lookup unchanged.
pub proof fn lemma_obj_insert_other(
    fields: Seq<(Seq<char>, SpecValue)>,
    key: Seq<char>,
    val: SpecValue,
    other: Seq<char>,
)
    requires
        other != key,
    ensures
        obj_lookup(obj_insert(fields, key, val), other) == obj_lookup(fields, other),
    decreases fields.len(),
{
    lemma_obj_index_of_bounds(fields, key);
    lemma_obj_index_of_bounds(fields, other);
    let updated = obj_insert(fields, key, val);
    if obj_has_key(fields, other) {
        let j = obj_index_of(fields, other);
        assert(updated[j] == fields[j]);
        assert forall|k: int| 0 <= k < j implies updated[k].0 != other by {
            assert(fields[k].0 != other);
        }
        lemma_obj_index_of_first(updated, other, j);
    } else {
        assert forall|k: int| 0 <= k < updated.len() implies updated[k].0 != other by {
            if k < fields.len() {
                assert(fields[k].0 != other);
            }
        }
        lemma_obj_index_of_none(updated, other);
    }
}

/// Removal under one key leaves every other key's lookup unchanged.
pub proof fn lemma_obj_remove_other(
    fields: Seq<(Seq<char>, SpecValue)>,
    key: Seq<char>,
    other: Seq<char>,
)
    requires
        other != key,
    ensures
        obj_lookup(obj_remove(fields, key), other) == obj_lookup(fields, other),
{
    lemma_obj_index_of_bounds(fields, key);
    lemma_obj_index_of_bounds(fields, other);
    if obj_has_key(fields, key) {
        let i = obj_index_of(fields, key);
        let removed = fields.remove(i);
        if obj_has_key(fields, other) {
            let j = obj_index_of(fields, other);
            assert(fields[j].0 == other);
            assert(i != j);
            if j < i {
                assert(removed[j] == fields[j]);
                assert forall|k: int| 0 <= k < j implies removed[k].0 != other by {
                    assert(removed[k] == fields[k]);
                }
                lemma_obj_index_of_first(removed, other, j);
            } else {
                assert(removed[j - 1] == fields[j]);
                assert forall|k: int| 0 <= k < j - 1 implies removed[k].0 != other by {
                    if k < i {
                        assert(removed[k] == fields[k]);
                    } else {
                        assert(removed[k] == fields[k + 1]);
                    }
                }
                lemma_obj_index_of_first(removed, other, j - 1);
            }
        } else {
            assert forall|k: int| 0 <= k < removed.len() implies removed[k].0 != other by {
                if k < i {
                    assert(removed[k] == fields[k]);
                } else {
                    assert(removed[k] == fields[k + 1]);
                }
            }
            lemma_obj_index_of_none(removed, other);
        }
    }
}

/// Equality of strings, character by character.
pub fn str_eq(a: &str, b: &str) -> (r: bool)
    ensures
        r == (a@ == b@),
{
    let alen = a.unicode_len();
    let blen = b.unicode_len();
    if alen != blen {
        return false;
    }
    let mut i: usize = 0;
    while i < alen
        invariant
            alen == a@.len(),
            alen == b@.len(),
            0 <= i <= alen,
            forall|j: int| 0 <= j < i ==> a@[j] == b@[j],
        decreases alen - i,
    {
        if a.get_char(i) != b.get_char(i) {
            return false;
        }
        i = i + 1;
    }
    proof {
        assert(a@ =~= b@);
    }
    true
}

/// Index of the first field whose key equals `key`, as executable search.
pub(crate) fn obj_find(fields: &Vec<(String, Value)>, key: &str) -> (r: Option<usize>)
    ensures
        match r {
            Some(i) => i < fields@.len() && obj_index_of(view_fields(fields@), key@) == i,
            None => obj_index_of(view_fields(fields@), key@) == -1,
        },
{
    let ghost sfields = view_fields(fields@);
    proof {
        lemma_view_fields(fields@);
    }
    let n = fields.len();
    let mut i: usize = 0;
    while i < n
        invariant
            n == fields@.len(),
            0 <= i <= n,
            sfields == view_fields(fields@),
            sfields == Seq::new(fields@.len(), |k: int| (fields@[k].0@, fields@[k].1@)),
            forall|j: int| 0 <= j < i ==> sfields[j].0 != key@,
        decreases n - i,
    {
        let entry = &fields[i];
        if str_eq(entry.0.as_str(), key) {
            proof {
                lemma_obj_index_of_first(sfields, key@, i as int);
            }
            return Some(i);
        }
        i = i + 1;
    }
    proof {
        lemma_obj_index_of_none(sfields, key@);
    }
    None
}

/// Index of the first occurrence of `c`, or -1 when absent.
pub open spec fn find_char(s: Seq<char>, c: char) -> int
    decreases s.len(),
{
    if s.len() == 0 {
        -1
    } else if s[0] == c {
        0
    } else {
        let rest = find_char(s.drop_first(), c);
        if rest == -1 {
            -1
        } else {
            rest + 1
        }
    }
}

pub proof fn lemma_find_char_bounds(s: Seq<char>, c: char)
    ensures
        find_char(s, c) == -1 || (0 <= find_char(s, c) < s.len() && s[find_char(s, c)] == c),
        find_char(s, c) != -1 ==> forall|j: int| 0 <= j < find_char(s, c) ==> s[j] != c,
        find_char(s, c) == -1 ==> forall|j: int| 0 <= j < s.len() ==> s[j] != c,
    decreases s.len(),
{
    if s.len() > 0 && s[0] != c {
        lemma_find_char_bounds(s.drop_first(), c);
        assert forall|j: int| 1 <= j < s.len() implies s.drop_first()[j - 1] == s[j] by {}
    }
}

pub proof fn lemma_find_char_first(s: Seq<char>, c: char, i: int)
    requires
        0 <= i < s.len(),
        s[i] == c,
        forall|j: int| 0 <= j < i ==> s[j] != c,
    ensures
        find_char(s, c) == i,
    decreases s.len(),
{
    if i > 0 {
        lemma_find_char_first(s.drop_first(), c, i - 1);
    }
}

pub proof fn lemma_find_char_none(s: Seq<char>, c: char)
    requires
        forall|j: int| 0 <= j < s.len() ==> s[j] != c,
    ensures
        find_char(s, c) == -1,
    decreases s.len(),
{
    if s.len() > 0 {
        lemma_find_char_none(s.drop_first(), c);
    }
}

/// Lookup along a dot-separated path: each segment selects a field of the
/// current object.
pub open spec fn path_lookup(v: SpecValue, path: Seq<char>) -> Option<SpecValue>
    decreases path.len(),
{
    match v {
        SpecValue::Object(fields) => {
            let d = find_char(path, '.');
            if d == -1 {
                obj_lookup(fields, path)
            } else {
                proof {
                    lemma_find_char_bounds(path, '.');
                }
                match obj_lookup(fields, path.subrange(0, d)) {
                    Some(child) => path_lookup(child, path.subrange(d + 1, path.len() as int)),
                    None => None,
                }
            }
        },
        _ => None,
    }
}

/// Index of the first `.` in a string, as executable search.
pub fn find_dot(s: &str) -> (r: Option<usize>)
    ensures
        match r {
            Some(i) => i < s@.len() && find_char(s@, '.') == i,
            None => find_char(s@, '.') == -1,
        },
{
    let n = s.unicode_len();
    let mut i: usize = 0;
    while i < n
        invariant
            n == s@.len(),
            0 <= i <= n,
            forall|j: int| 0 <= j < i ==> s@[j] != '.',
        decreases n - i,
    {
        if s.get_char(i) == '.' {
            proof {
                lemma_find_char_first(s@, '.', i as int);
            }
            return Some(i);
        }
        i = i + 1;
    }
    proof {
        lemma_find_char_none(s@, '.');
    }
    None
}

impl Value {
    pub open spec fn spec_is_object(&self) -> bool {
        self@ is Object
    }

    pub open spec fn spec_is_array(&self) -> bool {
        self@ is Array
    }

    #[verifier::when_used_as_spec(spec_is_object)]
    pub fn is_object(&self) -> (r: bool)
        ensures
            r == (self@ is Object),
    {
        match self {
            Value::Object(_) => true,
            _ => false,
        }
    }

    #[verifier::when_used_as_spec(spec_is_array)]
    pub fn is_array(&self) -> (r: bool)
        ensures
            r == (self@ is Array),
    {
        match self {
            Value::Array(_) => true,
            _ => false,
        }
    }

    /// Field lookup on an object; `None` on any other kind of value.
    pub fn get<'a>(&'a self, key: &str) -> (r: Option<&'a Value>)
        ensures
            match self@ {
                SpecValue::Object(fields) => match r {
                    Some(v) => obj_lookup(fields, key@) == Some(v@),
                    None => obj_lookup(fields, key@) is None,
                },
                _ => r is None,
            },
            match r {
                Some(v) => decreases_to!(*self => *v),
                None => true,
            },
    {
        match self {
            Value::Object(fields) => {
                proof {
                    lemma_view_fields(fields@);
                }
                match obj_find(fields, key) {
                    Some(i) => {
                        let entry = &fields[i];
                        proof {
                            assert(decreases_to!(*self => *fields));
                            assert(decreases_to!(*fields => fields[i as int]));
                            assert(decreases_to!(fields[i as int] => fields[i as int].1));
                        }
                        Some(&entry.1)
                    },
                    None => None,
                }
            },
            _ => None,
        }
    }

    /// Insert into an object: an existing key keeps its position and takes
    /// the new value; a new key is appended at the end.
    pub fn insert(self, key: String, val: Value) -> (r: Value)
        requires
            self@ is Object,
        ensures
            r@ == SpecValue::Object(obj_insert(self@->Object_0, key@, val@)),
    {
        let ghost sfields = self@->Object_0;
        match self {
            Value::Object(mut fields) => {
                proof {
                    lemma_view_fields(fields@);
                }
                match obj_find(&fields, key.as_str()) {
                    Some(i) => {
                        fields.set(i, (key, val));
                        proof {
                            lemma_view_fields(fields@);
                            assert(view_fields(fields@) =~= obj_insert(sfields, key@, val@));
                        }
                    },
                    None => {
                        fields.push((key, val));
                        proof {
                            lemma_view_fields(fields@);
                            assert(view_fields(fields@) =~= obj_insert(sfields, key@, val@));
                        }
                    },
                }
                Value::Object(fields)
            },
            other => other,
        }
    }

    /// Lookup along a dot-separated path, each segment selecting a field of
    /// the object reached so far.
    pub fn get_path<'a>(&'a self, path: &str) -> (r: Option<&'a Value>)
        ensures
            match r {
                Some(v) => path_lookup(self@, path@) == Some(v@),
                None => path_lookup(self@, path@) is None,
            },
    {
        let mut cur: &'a Value = self;
        let mut rest: &str = path;
        loop
            invariant
                path_lookup(self@, path@) == path_lookup(cur@, rest@),
            decreases rest@.len(),
        {
            match find_dot(rest) {
                None => {
                    return cur.get(rest);
                },
                Some(d) => {
                    proof {
                        lemma_find_char_bounds(rest@, '.');
                    }
                    let seg = rest.substring_char(0, d);
                    match cur.get(seg) {
                        None => {
                            return None;
                        },
                        Some(child) => {
                            let ghost prev = rest@;
                            let n = rest.unicode_len();
                            let next = rest.substring_char(d + 1, n);
                            cur = child;
                            rest = next;
                        },
                    }
                },
            }
        }
    }

    /// Structural equality of two values: object fields are compared in
    /// order, numbers by kind and payload.
    #[verifier::loop_isolation(false)]
    pub fn value_eq(&self, other: &Value) -> (r: bool)
        ensures
            r == (self@ == other@),
        decreases self,
    {
        match (self, other) {
            (Value::Null, Value::Null) => true,
            (Value::Bool(a), Value::Bool(b)) => a == b,
            (Value::Int(a), Value::Int(b)) => a == b,
            (Value::Float(a), Value::Float(b)) => str_eq(a.as_str(), b.as_str()),
            (Value::Text(a), Value::Text(b)) => str_eq(a.as_str(), b.as_str()),
            (Value::Array(xs), Value::Array(ys)) => {
                proof {
                    lemma_view_items(xs@);
                    lemma_view_items(ys@);
                }
                let n = xs.len();
                if n != ys.len() {
                    proof {
                        assert(view_items(xs@).len() != view_items(ys@).len());
                    }
                    return false;
                }
                let mut i: usize = 0;
                while i < n
                    invariant
                        n == xs@.len(),
                        n == ys@.len(),
                        0 <= i <= n,
                        self@ == SpecValue::Array(view_items(xs@)),
                        other@ == SpecValue::Array(view_items(ys@)),
                        view_items(xs@) == Seq::new(xs@.len(), |k: int| xs@[k]@),
                        view_items(ys@) == Seq::new(ys@.len(), |k: int| ys@[k]@),
                        forall|j: int| 0 <= j < i ==> xs@[j]@ == ys@[j]@,
                    decreases n - i,
                {
                    let a = &xs[i];
                    let b = &ys[i];
                    proof {
                        assert(*self == Value::Array(*xs));
                        assert(decreases_to!(*self => *xs));
                        assert(decreases_to!(*xs => xs[i as int]));
                    }
                    if !a.value_eq(b) {
                        proof {
                            assert(view_items(xs@)[i as int] != view_items(ys@)[i as int]);
                        }
                        return false;
                    }
                    i = i + 1;
                }
                proof {
                    assert(view_items(xs@) =~= view_items(ys@));
                }
                true
            },
            (Value::Object(xs), Value::Object(ys)) => {
                proof {
                    lemma_view_fields(xs@);
                    lemma_view_fields(ys@);
                }
                let n = xs.len();
                if n != ys.len() {
                    proof {
                        assert(view_fields(xs@).len() != view_fields(ys@).len());
                    }
                    return false;
                }
                let mut i: usize = 0;
                while i < n
                    invariant
                        n == xs@.len(),
                        n == ys@.len(),
                        0 <= i <= n,
                        self@ == SpecValue::Object(view_fields(xs@)),
                        other@ == SpecValue::Object(view_fields(ys@)),
                        view_fields(xs@) == Seq::new(
                            xs@.len(),
                            |k: int| (xs@[k].0@, xs@[k].1@),
                        ),
                        view_fields(ys@) == Seq::new(
                            ys@.len(),
                            |k: int| (ys@[k].0@, ys@[k].1@),
                        ),
                        forall|j: int| 0 <= j < i ==> xs@[j].0@ == ys@[j].0@ && xs@[j].1@
                            == ys@[j].1@,
                    decreases n - i,
                {
                    let a = &xs[i];
                    let b = &ys[i];
                    if !str_eq(a.0.as_str(), b.0.as_str()) {
                        proof {
                            assert(view_fields(xs@)[i as int] != view_fields(ys@)[i as int]);
                        }
                        return false;
                    }
                    proof {
                        assert(*self == Value::Object(*xs));
                        assert(decreases_to!(*self => *xs));
                        assert(decreases_to!(*xs => xs[i as int]));
                        assert(decreases_to!(xs[i as int] => xs[i as int].1));
                    }
                    if !a.1.value_eq(&b.1) {
                        proof {
                            assert(view_fields(xs@)[i as int] != view_fields(ys@)[i as int]);
                        }
                        return false;
                    }
                    i = i + 1;
                }
                proof {
                    assert(view_fields(xs@) =~= view_fields(ys@));
                }
                true
            },
            _ => {
                proof {
                    assert(self@ != other@);
                }
                false
            },
        }
    }

    /// A copy whose model is the model of the original.
    #[verifier::loop_isolation(false)]
    pub fn deep_clone(&self) -> (r: Value)
        ensures
            r@ == self@,
        decreases self,
    {
        match self {
            Value::Null => Value::Null,
            Value::Bool(b) => Value::Bool(*b),
            Value::Int(i) => Value::Int(*i),
            Value::Float(t) => Value::Float(t.clone()),
            Value::Text(s) => Value::Text(s.clone()),
            Value::Array(xs) => {
                proof {
                    lemma_view_items(xs@);
                }
                let n = xs.len();
                let mut out: Vec<Value> = Vec::new();
                let mut i: usize = 0;
                while i < n
                    invariant
                        n == xs@.len(),
                        0 <= i <= n,
                        out@.len() == i,
                        forall|j: int| 0 <= j < i ==> out@[j]@ == xs@[j]@,
                    decreases n - i,
                {
                    let item = &xs[i];
                    proof {
                        assert(*self == Value::Array(*xs));
                        assert(decreases_to!(*self => *xs));
                        assert(decreases_to!(*xs => xs[i as int]));
                    }
                    out.push(item.deep_clone());
                    i = i + 1;
                }
                proof {
                    lemma_view_items(out@);
                    assert(view_items(out@) =~= view_items(xs@));
                }
                Value::Array(out)
            },
            Value::Object(fs) => {
                proof {
                    lemma_view_fields(fs@);
                }
                let n = fs.len();
                let mut out: Vec<(String, Value)> = Vec::new();
                let mut i: usize = 0;
                while i < n
                    invariant
                        n == fs@.len(),
                        0 <= i <= n,
                        out@.len() == i,
                        forall|j: int| 0 <= j < i ==> out@[j].0@ == fs@[j].0@ && out@[j].1@
                            == fs@[j].1@,
                    decreases n - i,
                {
                    let entry = &fs[i];
                    proof {
                        assert(*self == Value::Object(*fs));
                        assert(decreases_to!(*self => *fs));
                        assert(decreases_to!(*fs => fs[i as int]));
                        assert(decreases_to!(fs[i as int] => fs[i as int].1));
                    }
                    out.push((entry.0.clone(), entry.1.deep_clone()));
                    i = i + 1;
                }
                proof {
                    lemma_view_fields(out@);
                    assert(view_fields(out@) =~= view_fields(fs@));
                }
                Value::Object(out)
            },
        }
    }

    /// Remove the first field with the given key from an object; a miss, or
    /// a value of another kind, changes nothing.
    pub fn remove(self, key: &str) -> (r: Value)
        ensures
            match self@ {
                SpecValue::Object(fields) => r@ == SpecValue::Object(obj_remove(fields, key@)),
                _ => r@ == self@,
            },
    {
        let ghost old_view = self@;
        match self {
            Value::Object(mut fields) => {
                let ghost sfields = old_view->Object_0;
                proof {
                    lemma_view_fields(fields@);
                }
                match obj_find(&fields, key) {
                    Some(i) => {
                        fields.remove(i);
                        proof {
                            lemma_view_fields(fields@);
                            assert(view_fields(fields@) =~= obj_remove(sfields, key@));
                        }
                    },
                    None => {},
                }
                Value::Object(fields)
            },
            other => other,
        }
    }
}

} // verus!
