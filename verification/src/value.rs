//! Structured payload values carried between workflow steps.
//!
//! Step payloads, handler parameters and handler outputs are all values of
//! this shape: null, booleans, integers, text, lists, and objects (ordered
//! key/value pairs). The ghost counterpart [`Val`] abstracts text to
//! sequences of characters so that contracts can speak of contents alone.

use vstd::prelude::*;

verus! {

/// Ghost model of a payload value: text becomes `Seq<char>`, lists and
/// objects become sequences.
pub enum Val {
    Null,
    Bool(bool),
    Int(int),
    Text(Seq<char>),
    List(Seq<Val>),
    Object(Seq<(Seq<char>, Val)>),
}

/// One key/value entry of an object value.
#[derive(Debug, PartialEq)]
pub struct Field {
    pub key: String,
    pub val: Value,
}

/// A structured payload value, the library's own counterpart of a JSON
/// document with integer numbers.
#[derive(Debug, PartialEq)]
pub enum Value {
    Null,
    Bool(bool),
    Int(i64),
    Text(String),
    List(Vec<Value>),
    Object(Vec<Field>),
}

/// The ghost model of one value.
pub open spec fn val_of(v: Value) -> Val
    decreases v,
{
    match v {
        Value::Null => Val::Null,
        Value::Bool(b) => Val::Bool(b),
        Value::Int(i) => Val::Int(i as int),
        Value::Text(s) => Val::Text(s@),
        Value::List(items) => Val::List(vals_of(items@)),
        Value::Object(pairs) => Val::Object(fields_of(pairs@)),
    }
}

/// The ghost models of a sequence of values, element by element.
pub open spec fn vals_of(s: Seq<Value>) -> Seq<Val>
    decreases s,
{
    if s.len() == 0 {
        Seq::empty()
    } else {
        vals_of(s.drop_last()).push(val_of(s.last()))
    }
}

/// The ghost models of an object's entries, entry by entry.
pub open spec fn fields_of(s: Seq<Field>) -> Seq<(Seq<char>, Val)>
    decreases s,
{
    if s.len() == 0 {
        Seq::empty()
    } else {
        fields_of(s.drop_last()).push((s.last().key@, val_of(s.last().val)))
    }
}

impl View for Field {
    type V = (Seq<char>, Val);

    open spec fn view(&self) -> (Seq<char>, Val) {
        (self.key@, self.val@)
    }
}

impl View for Value {
    type V = Val;

    open spec fn view(&self) -> Val {
        val_of(*self)
    }
}

/// `vals_of` maps the sequence element by element.
pub proof fn lemma_vals_of(s: Seq<Value>)
    ensures
        vals_of(s).len() == s.len(),
        forall|i: int| 0 <= i < s.len() ==> vals_of(s)[i] == val_of(s[i]),
    decreases s,
{
    if s.len() > 0 {
        lemma_vals_of(s.drop_last());
    }
}

/// `fields_of` maps the entries element by element.
pub proof fn lemma_fields_of(s: Seq<Field>)
    ensures
        fields_of(s).len() == s.len(),
        forall|i: int| 0 <= i < s.len() ==> fields_of(s)[i] == (s[i].key@, val_of(
            s[i].val,
        )),
    decreases s,
{
    if s.len() > 0 {
        lemma_fields_of(s.drop_last());
    }
}

/// Two value sequences with element-wise equal models have equal models.
pub proof fn lemma_vals_of_pointwise(a: Seq<Value>, b: Seq<Value>)
    requires
        a.len() == b.len(),
        forall|i: int| 0 <= i < a.len() ==> val_of(a[i]) == val_of(b[i]),
    ensures
        vals_of(a) == vals_of(b),
{
    lemma_vals_of(a);
    lemma_vals_of(b);
    assert(vals_of(a) =~= vals_of(b));
}

/// Two entry sequences with equal key views and value models have equal
/// models.
pub proof fn lemma_fields_of_pointwise(a: Seq<Field>, b: Seq<Field>)
    requires
        a.len() == b.len(),
        forall|i: int| 0 <= i < a.len() ==> a[i].key@ == b[i].key@ && val_of(a[i].val)
            == val_of(b[i].val),
    ensures
        fields_of(a) == fields_of(b),
{
    lemma_fields_of(a);
    lemma_fields_of(b);
    assert(fields_of(a) =~= fields_of(b));
}

impl Value {
    /// A structural copy of this value, with the same model.
    pub fn deep_copy(&self) -> (res: Self)
        ensures
            res@ == self@,
        decreases *self,
    {
        match self {
            Value::Null => Value::Null,
            Value::Bool(b) => Value::Bool(*b),
            Value::Int(i) => Value::Int(*i),
            Value::Text(s) => Value::Text(s.clone()),
            Value::List(items) => {
                let mut copy: Vec<Value> = Vec::new();
                let mut i: usize = 0;
                while i < items.len()
                    invariant
                        *self == Value::List(*items),
                        0 <= i <= items@.len(),
                        copy@.len() == i,
                        forall|j: int| 0 <= j < i ==> val_of(copy@[j]) == val_of(
                            #[trigger] items@[j],
                        ),
                    decreases items@.len() - i,
                {
                    proof {
                        assert(decreases_to!(*self => self->List_0));
                        assert(decreases_to!(*items => items@[i as int]));
                    }
                    copy.push(items[i].deep_copy());
                    i += 1;
                }
                proof {
                    lemma_vals_of_pointwise(copy@, items@);
                }
                Value::List(copy)
            },
            Value::Object(pairs) => {
                let mut copy: Vec<Field> = Vec::new();
                let mut i: usize = 0;
                while i < pairs.len()
                    invariant
                        *self == Value::Object(*pairs),
                        0 <= i <= pairs@.len(),
                        copy@.len() == i,
                        forall|j: int| 0 <= j < i ==> copy@[j].key@ == (
                        #[trigger] pairs@[j]).key@ && val_of(copy@[j].val) == val_of(
                            pairs@[j].val,
                        ),
                    decreases pairs@.len() - i,
                {
                    proof {
                        assert(decreases_to!(*self => self->Object_0));
                        assert(decreases_to!(*pairs => pairs@[i as int]));
                        assert(decreases_to!(pairs@[i as int] => pairs@[i as int].val));
                    }
                    let entry = Field {
                        key: pairs[i].key.clone(),
                        val: pairs[i].val.deep_copy(),
                    };
                    copy.push(entry);
                    i += 1;
                }
                proof {
                    lemma_fields_of_pointwise(copy@, pairs@);
                }
                Value::Object(copy)
            },
        }
    }
}

impl Clone for Field {
    /// Cloning preserves the entry's key and value models.
    fn clone(&self) -> (res: Self)
        ensures
            res@ == self@,
    {
        Field { key: self.key.clone(), val: self.val.deep_copy() }
    }
}

impl Clone for Value {
    /// Cloning preserves the value's model.
    fn clone(&self) -> (res: Self)
        ensures
            res@ == self@,
    {
        self.deep_copy()
    }
}

/// The integer a value holds, if it is an integer.
pub open spec fn int_of(v: Val) -> Option<int> {
    match v {
        Val::Int(i) => Some(i),
        _ => None,
    }
}

/// The first entry of an object's entry sequence with the given key.
pub open spec fn entries_lookup(fields: Seq<(Seq<char>, Val)>, key: Seq<char>) -> Option<
    Val,
>
    decreases fields.len(),
{
    if fields.len() == 0 {
        None
    } else if fields[0].0 == key {
        Some(fields[0].1)
    } else {
        entries_lookup(fields.drop_first(), key)
    }
}

/// The field a value holds under the given key, if it is an object with
/// such a field.
pub open spec fn val_lookup(v: Val, key: Seq<char>) -> Option<Val> {
    match v {
        Val::Object(fields) => entries_lookup(fields, key),
        _ => None,
    }
}

/// A match at the first position where the key occurs settles the lookup.
pub proof fn lemma_entries_lookup_found(fields: Seq<(Seq<char>, Val)>, key: Seq<char>, i: int)
    requires
        0 <= i < fields.len(),
        fields[i].0 == key,
        forall|j: int| 0 <= j < i ==> fields[j].0 != key,
    ensures
        entries_lookup(fields, key) == Some(fields[i].1),
    decreases i,
{
    if i > 0 {
        lemma_entries_lookup_found(fields.drop_first(), key, i - 1);
    }
}

/// With no entry under the key, the lookup comes back empty.
pub proof fn lemma_entries_lookup_missing(fields: Seq<(Seq<char>, Val)>, key: Seq<char>)
    requires
        forall|j: int| 0 <= j < fields.len() ==> fields[j].0 != key,
    ensures
        entries_lookup(fields, key) is None,
    decreases fields.len(),
{
    if fields.len() > 0 {
        lemma_entries_lookup_missing(fields.drop_first(), key);
    }
}

/// Exact equality of two text slices, decided character by character.
pub fn str_eq(a: &str, b: &str) -> (r: bool)
    ensures
        r == (a@ == b@),
{
    let x = a.to_owned();
    let y = b.to_owned();
    x == y
}

impl Value {
    /// The integer this value holds, if it is an integer.
    pub fn as_int(&self) -> (r: Option<i64>)
        ensures
            match r {
                Some(i) => int_of(self@) == Some(i as int),
                None => int_of(self@) is None,
            },
    {
        match self {
            Value::Int(i) => Some(*i),
            _ => None,
        }
    }

    /// The text this value holds, if it is text.
    pub fn as_text(&self) -> (r: Option<&String>)
        ensures
            match r {
                Some(s) => self@ == Val::Text(s@),
                None => !(self@ is Text),
            },
    {
        match self {
            Value::Text(s) => Some(s),
            _ => None,
        }
    }

    /// The items this value holds, if it is a list.
    pub fn as_list(&self) -> (r: Option<&Vec<Value>>)
        ensures
            match r {
                Some(items) => self@ == Val::List(vals_of(items@)),
                None => !(self@ is List),
            },
    {
        match self {
            Value::List(items) => Some(items),
            _ => None,
        }
    }

    /// The field under the given key, if this value is an object that has
    /// one; the first entry wins when a key repeats.
    pub fn get(&self, key: &str) -> (r: Option<&Value>)
        ensures
            match r {
                Some(v) => val_lookup(self@, key@) == Some(v@),
                None => val_lookup(self@, key@) is None,
            },
    {
        match self {
            Value::Object(pairs) => {
                proof {
                    lemma_fields_of(pairs@);
                }
                let ghost gfields = fields_of(pairs@);
                let mut i: usize = 0;
                while i < pairs.len()
                    invariant
                        *self == Value::Object(*pairs),
                        0 <= i <= pairs.len(),
                        gfields == fields_of(pairs@),
                        gfields.len() == pairs@.len(),
                        forall|j: int| 0 <= j < pairs@.len() ==> gfields[j] == (
                        pairs@[j].key@, val_of(pairs@[j].val)),
                        forall|j: int| 0 <= j < i ==> gfields[j].0 != key@,
                    decreases pairs.len() - i,
                {
                    if str_eq(pairs[i].key.as_str(), key) {
                        proof {
                            lemma_entries_lookup_found(gfields, key@, i as int);
                            assert(self@ == Val::Object(gfields));
                        }
                        return Some(&pairs[i].val);
                    }
                    i += 1;
                }
                proof {
                    lemma_entries_lookup_missing(gfields, key@);
                }
                None
            },
            _ => None,
        }
    }
}

} // verus!
