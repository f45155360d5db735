//! An ordered map from type names to lists of JSON values.
//!
//! JSON-LD and microdata indexing both key extracted objects by a type
//! name and keep every object of a type, in document order.  Keys are
//! unique and keep first-appearance order.

use vstd::prelude::*;
use crate::json::{JsonModel, JsonValue, eq_chars};
use crate::chars::{to_chars, from_chars};

verus! {

/// The model of a typed index: type names with their objects, in order.
pub type IndexModel = Seq<(Seq<char>, Seq<JsonModel>)>;

/// Insertion into the model: append to the named entry, or add a new
/// entry at the end.
pub open spec fn spec_index_insert(m: IndexModel, name: Seq<char>, obj: JsonModel) -> IndexModel
    decreases m.len(),
{
    if m.len() == 0 {
        seq![(name, seq![obj])]
    } else if m[0].0 == name {
        seq![(m[0].0, m[0].1.push(obj))] + m.drop_first()
    } else {
        seq![m[0]] + spec_index_insert(m.drop_first(), name, obj)
    }
}

/// Lookup of the first entry named `name`.
pub open spec fn spec_index_get(m: IndexModel, name: Seq<char>) -> Option<Seq<JsonModel>>
    decreases m.len(),
{
    if m.len() == 0 {
        None
    } else if m[0].0 == name {
        Some(m[0].1)
    } else {
        spec_index_get(m.drop_first(), name)
    }
}

/// When an entry holds the key, insertion updates it in place.
pub proof fn lemma_index_insert_hit(m: IndexModel, name: Seq<char>, obj: JsonModel, k: int)
    requires
        0 <= k < m.len(),
        forall|i: int| 0 <= i < k ==> m[i].0 != name,
        m[k].0 == name,
    ensures
        spec_index_insert(m, name, obj) =~= m.update(k, (m[k].0, m[k].1.push(obj))),
    decreases k,
{
    if k == 0 {
        assert(spec_index_insert(m, name, obj) =~= m.update(0, (m[0].0, m[0].1.push(obj))));
    } else {
        lemma_index_insert_hit(m.drop_first(), name, obj, k - 1);
        assert(spec_index_insert(m, name, obj) =~= m.update(k, (m[k].0, m[k].1.push(obj))));
    }
}

/// When no entry holds the key, insertion appends a new entry.
pub proof fn lemma_index_insert_miss(m: IndexModel, name: Seq<char>, obj: JsonModel)
    requires
        forall|i: int| 0 <= i < m.len() ==> m[i].0 != name,
    ensures
        spec_index_insert(m, name, obj) =~= m.push((name, seq![obj])),
    decreases m.len(),
{
    if m.len() > 0 {
        lemma_index_insert_miss(m.drop_first(), name, obj);
        assert(spec_index_insert(m, name, obj) =~= m.push((name, seq![obj])));
    }
}

/// Insertion never leaves an entry empty: every list in the result is
/// non-empty if every list was before.
pub proof fn lemma_index_insert_nonempty(m: IndexModel, name: Seq<char>, obj: JsonModel)
    requires
        forall|i: int| 0 <= i < m.len() ==> #[trigger] m[i].1.len() > 0,
    ensures
        forall|i: int|
            0 <= i < spec_index_insert(m, name, obj).len() ==> #[trigger] spec_index_insert(
                m,
                name,
                obj,
            )[i].1.len() > 0,
    decreases m.len(),
{
    let r = spec_index_insert(m, name, obj);
    if m.len() == 0 {
        assert forall|i: int| 0 <= i < r.len() implies #[trigger] r[i].1.len() > 0 by {
            assert(r[i] == (name, seq![obj]));
        }
    } else if m[0].0 == name {
        assert forall|i: int| 0 <= i < r.len() implies #[trigger] r[i].1.len() > 0 by {
            if i == 0 {
                assert(r[0].1 == m[0].1.push(obj));
            } else {
                assert(r[i] == m[i]);
                assert(m[i].1.len() > 0);
            }
        }
    } else {
        assert(forall|i: int|
            0 <= i < m.drop_first().len() ==> #[trigger] m.drop_first()[i].1.len() > 0);
        lemma_index_insert_nonempty(m.drop_first(), name, obj);
        let rr = spec_index_insert(m.drop_first(), name, obj);
        assert forall|i: int| 0 <= i < r.len() implies #[trigger] r[i].1.len() > 0 by {
            if i == 0 {
                assert(r[0] == m[0]);
                assert(m[0].1.len() > 0);
            } else {
                assert(r[i] == rr[i - 1]);
            }
        }
    }
}

/// An ordered map from type names to the JSON objects of that type.
pub struct TypedIndex {
    pub entries: Vec<(String, Vec<JsonValue>)>,
}

impl TypedIndex {
    /// The model this index stands for.
    pub open spec fn model(self) -> IndexModel {
        Seq::new(
            self.entries@.len(),
            |i: int|
                if 0 <= i < self.entries@.len() {
                    (
                        self.entries@[i].0@,
                        Seq::new(
                            self.entries@[i].1@.len(),
                            |j: int|
                                if 0 <= j < self.entries@[i].1@.len() {
                                    self.entries@[i].1@[j].model()
                                } else {
                                    JsonModel::Null
                                },
                        ),
                    )
                } else {
                    (Seq::empty(), Seq::empty())
                },
        )
    }

    /// An empty index.
    pub fn new() -> (r: TypedIndex)
        ensures
            r.model() =~= Seq::<(Seq<char>, Seq<JsonModel>)>::empty(),
    {
        let r = TypedIndex { entries: Vec::new() };
        proof {
            assert(r.model() =~= Seq::<(Seq<char>, Seq<JsonModel>)>::empty());
        }
        r
    }

    /// Append `obj` under `name`, creating the entry if it is new.
    pub fn insert(&mut self, name: &Vec<char>, obj: JsonValue)
        ensures
            final(self).model() == spec_index_insert(old(self).model(), name@, obj.model()),
    {
        let ghost m = self.model();
        let mut k: usize = 0;
        let n = self.entries.len();
        while k < n
            invariant
                k <= n,
                n == self.entries@.len(),
                m == self.model(),
                forall|i: int| 0 <= i < k ==> m[i].0 != name@,
            decreases n - k,
        {
            let key = to_chars(self.entries[k].0.as_str());
            if eq_chars(&key, name) {
                let entry = self.entries.remove(k);
                let mut vals = entry.1;
                vals.push(obj);
                self.entries.insert(k, (entry.0, vals));
                proof {
                    lemma_index_insert_hit(m, name@, obj.model(), k as int);
                    assert(self.model() =~~= m.update(k as int, (m[k as int].0, m[k as int].1.push(obj.model()))));
                }
                return ;
            }
            k = k + 1;
        }
        let key_string = from_chars(name);
        let mut vals: Vec<JsonValue> = Vec::new();
        vals.push(obj);
        self.entries.push((key_string, vals));
        proof {
            lemma_index_insert_miss(m, name@, obj.model());
            assert(self.model() =~~= m.push((name@, seq![obj.model()])));
        }
    }

    /// The objects recorded under `name`, if any.
    pub fn get(&self, name: &Vec<char>) -> (r: Option<&Vec<JsonValue>>)
        ensures
            match r {
                Some(vs) => spec_index_get(self.model(), name@) == Some(
                    Seq::new(
                        vs@.len(),
                        |j: int|
                            if 0 <= j < vs@.len() {
                                vs@[j].model()
                            } else {
                                JsonModel::Null
                            },
                    ),
                ),
                None => spec_index_get(self.model(), name@) is None,
            },
    {
        let ghost m = self.model();
        let mut k: usize = 0;
        let n = self.entries.len();
        while k < n
            invariant
                k <= n,
                n == self.entries@.len(),
                m == self.model(),
                forall|i: int| 0 <= i < k ==> m[i].0 != name@,
            decreases n - k,
        {
            let key = to_chars(self.entries[k].0.as_str());
            if eq_chars(&key, name) {
                proof {
                    lemma_index_get_hit(m, name@, k as int);
                }
                return Some(&self.entries[k].1);
            }
            k = k + 1;
        }
        proof {
            lemma_index_get_none(m, name@);
        }
        None
    }
}

/// If no entry is named `name`, the lookup yields nothing.
pub proof fn lemma_index_get_none(m: IndexModel, name: Seq<char>)
    requires
        forall|i: int| 0 <= i < m.len() ==> m[i].0 != name,
    ensures
        spec_index_get(m, name) is None,
    decreases m.len(),
{
    if m.len() > 0 {
        lemma_index_get_none(m.drop_first(), name);
    }
}

/// If entries before `k` miss `name` and entry `k` carries it, the lookup
/// yields entry `k`'s list.
pub proof fn lemma_index_get_hit(m: IndexModel, name: Seq<char>, k: int)
    requires
        0 <= k < m.len(),
        forall|i: int| 0 <= i < k ==> m[i].0 != name,
        m[k].0 == name,
    ensures
        spec_index_get(m, name) == Some(m[k].1),
    decreases k,
{
    if k > 0 {
        lemma_index_get_hit(m.drop_first(), name, k - 1);
    }
}

} // verus!
