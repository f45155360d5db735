//! JSON values and their mathematical model.
//!
//! `JsonValue` is the crate's own JSON representation.  Numbers carry either
//! a 64-bit integer or, for numbers outside that range or with a fractional
//! part, the decimal text of the value; the crate never computes with
//! non-integral numbers, it only carries them through.
//!
//! `JsonModel` is the ghost mirror used by every contract: sequences in
//! place of vectors, `int` in place of `i64`.

use vstd::prelude::*;

verus! {

/// Ghost model of a JSON value.
pub enum JsonModel {
    Null,
    Bool(bool),
    Int(int),
    Num(Seq<char>),
    Str(Seq<char>),
    Arr(Seq<JsonModel>),
    Obj(Seq<(Seq<char>, JsonModel)>),
}

/// A JSON value.  `Num` holds the decimal text of a number that is not a
/// 64-bit integer; `Obj` keeps fields in insertion order.
#[derive(Debug)]
pub enum JsonValue {
    Null,
    Bool(bool),
    Int(i64),
    Num(String),
    Str(String),
    Arr(Vec<JsonValue>),
    Obj(Vec<(String, JsonValue)>),
}

impl JsonValue {
    /// The mathematical value this JSON value stands for.
    pub open spec fn model(self) -> JsonModel
        decreases self,
    {
        match self {
            JsonValue::Null => JsonModel::Null,
            JsonValue::Bool(b) => JsonModel::Bool(b),
            JsonValue::Int(i) => JsonModel::Int(i as int),
            JsonValue::Num(t) => JsonModel::Num(t@),
            JsonValue::Str(s) => JsonModel::Str(s@),
            JsonValue::Arr(a) => JsonModel::Arr(
                Seq::new(a@.len(), |i: int| if 0 <= i < a@.len() { a@[i].model() } else { JsonModel::Null }),
            ),
            JsonValue::Obj(f) => JsonModel::Obj(
                Seq::new(
                    f@.len(),
                    |i: int| if 0 <= i < f@.len() { (f@[i].0@, f@[i].1.model()) } else { (Seq::empty(), JsonModel::Null) },
                ),
            ),
        }
    }

    /// A structurally equal copy.
    pub fn duplicate(&self) -> (r: JsonValue)
        ensures
            r.model() == self.model(),
        decreases self,
    {
        match self {
            JsonValue::Null => JsonValue::Null,
            JsonValue::Bool(b) => JsonValue::Bool(*b),
            JsonValue::Int(i) => JsonValue::Int(*i),
            JsonValue::Num(t) => JsonValue::Num(clone_string(t)),
            JsonValue::Str(s) => JsonValue::Str(clone_string(s)),
            JsonValue::Arr(a) => {
                let mut out: Vec<JsonValue> = Vec::new();
                let mut i: usize = 0;
                while i < a.len()
                    invariant
                        i <= a@.len(),
                        out@.len() == i,
                        forall|k: int| 0 <= k < i ==> out@[k].model() == a@[k].model(),
                    decreases a@.len() - i,
                {
                    out.push(a[i].duplicate());
                    i = i + 1;
                }
                let r = JsonValue::Arr(out);
                proof {
                    assert(r.model()->Arr_0 =~= self.model()->Arr_0);
                }
                r
            },
            JsonValue::Obj(f) => {
                let mut out: Vec<(String, JsonValue)> = Vec::new();
                let mut i: usize = 0;
                while i < f.len()
                    invariant
                        i <= f@.len(),
                        out@.len() == i,
                        forall|k: int|
                            0 <= k < i ==> out@[k].0@ == f@[k].0@ && out@[k].1.model() == f@[k].1.model(),
                    decreases f@.len() - i,
                {
                    let entry = &f[i];
                    out.push((clone_string(&entry.0), entry.1.duplicate()));
                    i = i + 1;
                }
                let r = JsonValue::Obj(out);
                proof {
                    assert(r.model()->Obj_0 =~= self.model()->Obj_0);
                }
                r
            },
        }
    }
}

/// A copy of a string with the same characters.
pub fn clone_string(s: &String) -> (r: String)
    ensures
        r@ == s@,
{
    s.clone()
}

/// The value of the first field named `key`, if any.
pub open spec fn spec_obj_get(fields: Seq<(Seq<char>, JsonModel)>, key: Seq<char>) -> Option<JsonModel>
    decreases fields.len(),
{
    if fields.len() == 0 {
        None
    } else if fields[0].0 == key {
        Some(fields[0].1)
    } else {
        spec_obj_get(fields.drop_first(), key)
    }
}

/// If no field is named `key`, the lookup yields nothing.
pub proof fn lemma_obj_get_none(fields: Seq<(Seq<char>, JsonModel)>, key: Seq<char>)
    requires
        forall|k: int| 0 <= k < fields.len() ==> fields[k].0 != key,
    ensures
        spec_obj_get(fields, key) is None,
    decreases fields.len(),
{
    if fields.len() > 0 {
        lemma_obj_get_none(fields.drop_first(), key);
    }
}

/// If the fields before `i` miss `key` and field `i` carries it, the lookup
/// yields field `i`'s value.
pub proof fn lemma_obj_get_hit(fields: Seq<(Seq<char>, JsonModel)>, key: Seq<char>, i: int)
    requires
        0 <= i < fields.len(),
        forall|k: int| 0 <= k < i ==> fields[k].0 != key,
        fields[i].0 == key,
    ensures
        spec_obj_get(fields, key) == Some(fields[i].1),
    decreases i,
{
    if i > 0 {
        lemma_obj_get_hit(fields.drop_first(), key, i - 1);
    }
}

/// Lookup of `key` in `j`: a field of an object, `None` on everything else.
pub open spec fn spec_get_key(j: JsonModel, key: Seq<char>) -> Option<JsonModel> {
    match j {
        JsonModel::Obj(fields) => spec_obj_get(fields, key),
        _ => None,
    }
}

/// Lookup of index `i` in `j`: an element of an array, `None` on everything else.
pub open spec fn spec_get_index(j: JsonModel, i: int) -> Option<JsonModel> {
    match j {
        JsonModel::Arr(a) => if 0 <= i < a.len() {
            Some(a[i])
        } else {
            None
        },
        _ => None,
    }
}

impl JsonValue {
    /// Whether this value is `Null`.
    pub fn is_null(&self) -> (r: bool)
        ensures
            r == (self.model() is Null),
    {
        match self {
            JsonValue::Null => true,
            _ => false,
        }
    }

    /// The first field of an object named `key`, if any.
    pub fn get_key(&self, key: &Vec<char>) -> (r: Option<&JsonValue>)
        ensures
            match r {
                Some(v) => spec_get_key(self.model(), key@) == Some(v.model()),
                None => spec_get_key(self.model(), key@) is None,
            },
    {
        match self {
            JsonValue::Obj(fields) => {
                let ghost m = self.model()->Obj_0;
                let mut i: usize = 0;
                while i < fields.len()
                    invariant
                        i <= fields@.len(),
                        forall|k: int| 0 <= k < i ==> m[k].0 != key@,
                    decreases fields@.len() - i,
                {
                    let name = to_char_vec_of_string(&fields[i].0);
                    if eq_chars(&name, key) {
                        proof {
                            lemma_obj_get_hit(m, key@, i as int);
                        }
                        return Some(&fields[i].1);
                    }
                    i = i + 1;
                }
                proof {
                    lemma_obj_get_none(m, key@);
                }
                None
            },
            _ => None,
        }
    }

    /// The `i`-th element of an array, if any.
    pub fn get_index(&self, i: usize) -> (r: Option<&JsonValue>)
        ensures
            match r {
                Some(v) => spec_get_index(self.model(), i as int) == Some(v.model()),
                None => spec_get_index(self.model(), i as int) is None,
            },
    {
        match self {
            JsonValue::Arr(a) => {
                if i < a.len() {
                    Some(&a[i])
                } else {
                    None
                }
            },
            _ => None,
        }
    }
}

/// The characters of `s`, in order (helper shared by the lookup loops).
pub fn to_char_vec_of_string(s: &String) -> (r: Vec<char>)
    ensures
        r@ == s@,
{
    crate::chars::to_chars(s.as_str())
}

/// Whether two character buffers hold the same characters.
pub fn eq_chars(a: &Vec<char>, b: &Vec<char>) -> (r: bool)
    ensures
        r == (a@ == b@),
{
    if a.len() != b.len() {
        return false;
    }
    let mut i: usize = 0;
    while i < a.len()
        invariant
            i <= a@.len(),
            a@.len() == b@.len(),
            forall|k: int| 0 <= k < i ==> a@[k] == b@[k],
        decreases a@.len() - i,
    {
        if a[i] != b[i] {
            return false;
        }
        i = i + 1;
    }
    proof {
        assert(a@ =~= b@);
    }
    true
}

} // verus!
