//! A small document model for configuration data.
//!
//! Desired and observed resource states, as well as rendered provider
//! documents, are trees of keyed values. Objects are ordered lists of
//! key/value pairs; lookups return the first entry with a matching key.

use vstd::prelude::*;

verus! {

broadcast use vstd::std_specs::vec::group_vec_axioms, vstd::seq::group_seq_axioms;

/// An executable document value.
pub enum JsonValue {
    Null,
    Bool(bool),
    Int(i64),
    Str(String),
    Arr(Vec<JsonValue>),
    Obj(Vec<(String, JsonValue)>),
}

/// The mathematical model of a document value: strings and keys are
/// character sequences, collections are sequences.
#[verifier::ext_equal]
pub enum JsonV {
    Null,
    Bool(bool),
    Int(int),
    Str(Seq<char>),
    Arr(Seq<JsonV>),
    Obj(Seq<(Seq<char>, JsonV)>),
}

impl JsonValue {
    /// The model of one value.
    pub open spec fn model(self) -> JsonV
        decreases self,
    {
        match self {
            JsonValue::Null => JsonV::Null,
            JsonValue::Bool(b) => JsonV::Bool(b),
            JsonValue::Int(i) => JsonV::Int(i as int),
            JsonValue::Str(s) => JsonV::Str(s@),
            JsonValue::Arr(items) => JsonV::Arr(Self::model_arr(items@)),
            JsonValue::Obj(entries) => JsonV::Obj(Self::model_obj(entries@)),
        }
    }

    /// The models of a sequence of values, in order.
    pub open spec fn model_arr(items: Seq<JsonValue>) -> Seq<JsonV>
        decreases items,
    {
        if items.len() == 0 {
            Seq::empty()
        } else {
            seq![items.first().model()] + Self::model_arr(items.drop_first())
        }
    }

    /// The models of a sequence of key/value entries, in order.
    pub open spec fn model_obj(entries: Seq<(String, JsonValue)>) -> Seq<(Seq<char>, JsonV)>
        decreases entries,
    {
        if entries.len() == 0 {
            Seq::empty()
        } else {
            seq![(entries.first().0@, entries.first().1.model())] + Self::model_obj(
                entries.drop_first(),
            )
        }
    }
}

impl View for JsonValue {
    type V = JsonV;

    open spec fn view(&self) -> JsonV {
        self.model()
    }
}

/// The model of a sequence of values is the sequence of their models.
pub broadcast proof fn lemma_model_arr(items: Seq<JsonValue>)
    ensures
        (#[trigger] JsonValue::model_arr(items)).len() == items.len(),
        forall|i: int| 0 <= i < items.len() ==> JsonValue::model_arr(items)[i] == items[i]@,
    decreases items.len(),
{
    if items.len() > 0 {
        lemma_model_arr(items.drop_first());
    }
}

/// The model of a sequence of entries pairs each key's characters with the
/// model of its value.
pub broadcast proof fn lemma_model_obj(entries: Seq<(String, JsonValue)>)
    ensures
        (#[trigger] JsonValue::model_obj(entries)).len() == entries.len(),
        forall|i: int|
            0 <= i < entries.len() ==> JsonValue::model_obj(entries)[i] == (
            entries[i].0@,
            entries[i].1@,
            ),
    decreases entries.len(),
{
    if entries.len() > 0 {
        lemma_model_obj(entries.drop_first());
    }
}

/// Structural equality of two document values: their models are the same.
#[verifier::loop_isolation(false)]
pub fn json_eq(a: &JsonValue, b: &JsonValue) -> (r: bool)
    ensures
        r == (a@ == b@),
    decreases *a,
{
    proof {
        broadcast use lemma_model_arr, lemma_model_obj;

    }
    match (a, b) {
        (JsonValue::Null, JsonValue::Null) => true,
        (JsonValue::Bool(x), JsonValue::Bool(y)) => x == y,
        (JsonValue::Int(x), JsonValue::Int(y)) => x == y,
        (JsonValue::Str(x), JsonValue::Str(y)) => x.eq(y),
        (JsonValue::Arr(x), JsonValue::Arr(y)) => {
            proof {
                lemma_model_arr(x@);
                lemma_model_arr(y@);
            }
            if x.len() != y.len() {
                return false;
            }
            let mut i: usize = 0;
            while i < x.len()
                invariant
                    0 <= i <= x@.len(),
                    x@.len() == y@.len(),
                    a@ == JsonV::Arr(JsonValue::model_arr(x@)),
                    b@ == JsonV::Arr(JsonValue::model_arr(y@)),
                    forall|j: int| 0 <= j < i ==> x@[j]@ == y@[j]@,
                decreases x@.len() - i,
            {
                proof {
                    vstd::std_specs::vec::axiom_vec_index_decreases(*x, i as int);
                    vstd::std_specs::vec::axiom_vec_index_decreases(*y, i as int);
                    assert(*a == JsonValue::Arr(*x));
                    assert(decreases_to!(*a => *x));
                    assert(decreases_to!(*x => x@[i as int]));
                    assert(decreases_to!(*a => x@[i as int]));
                }
                if !json_eq(&x[i], &y[i]) {
                    proof {
                        lemma_model_arr(x@);
                        lemma_model_arr(y@);
                        assert(JsonValue::model_arr(x@)[i as int] != JsonValue::model_arr(
                            y@,
                        )[i as int]);
                    }
                    return false;
                }
                i += 1;
            }
            proof {
                lemma_model_arr(x@);
                lemma_model_arr(y@);
                assert(JsonValue::model_arr(x@) =~= JsonValue::model_arr(y@));
            }
            true
        },
        (JsonValue::Obj(x), JsonValue::Obj(y)) => {
            proof {
                lemma_model_obj(x@);
                lemma_model_obj(y@);
            }
            if x.len() != y.len() {
                return false;
            }
            let mut i: usize = 0;
            while i < x.len()
                invariant
                    0 <= i <= x@.len(),
                    x@.len() == y@.len(),
                    a@ == JsonV::Obj(JsonValue::model_obj(x@)),
                    b@ == JsonV::Obj(JsonValue::model_obj(y@)),
                    forall|j: int|
                        0 <= j < i ==> x@[j].0@ == y@[j].0@ && x@[j].1@ == y@[j].1@,
                decreases x@.len() - i,
            {
                let (xk, xv) = &x[i];
                let (yk, yv) = &y[i];
                if !xk.eq(yk) {
                    proof {
                        lemma_model_obj(x@);
                        lemma_model_obj(y@);
                        assert(JsonValue::model_obj(x@)[i as int] != JsonValue::model_obj(
                            y@,
                        )[i as int]);
                    }
                    return false;
                }
                proof {
                    vstd::std_specs::vec::axiom_vec_index_decreases(*x, i as int);
                    vstd::std_specs::vec::axiom_vec_index_decreases(*y, i as int);
                    assert(*a == JsonValue::Obj(*x));
                    assert(decreases_to!(*a => *x));
                    assert(decreases_to!(*x => x@[i as int]));
                    assert(decreases_to!(*a => x@[i as int].1));
                }
                if !json_eq(xv, yv) {
                    proof {
                        lemma_model_obj(x@);
                        lemma_model_obj(y@);
                        assert(JsonValue::model_obj(x@)[i as int] != JsonValue::model_obj(
                            y@,
                        )[i as int]);
                    }
                    return false;
                }
                i += 1;
            }
            proof {
                lemma_model_obj(x@);
                lemma_model_obj(y@);
                assert(JsonValue::model_obj(x@) =~= JsonValue::model_obj(y@));
            }
            true
        },
        _ => false,
    }
}

/// A deep copy with the same model.
#[verifier::loop_isolation(false)]
pub fn json_clone(v: &JsonValue) -> (r: JsonValue)
    ensures
        r@ == v@,
    decreases *v,
{
    proof {
        broadcast use lemma_model_arr, lemma_model_obj;

    }
    match v {
        JsonValue::Null => JsonValue::Null,
        JsonValue::Bool(b) => JsonValue::Bool(*b),
        JsonValue::Int(i) => JsonValue::Int(*i),
        JsonValue::Str(s) => JsonValue::Str(s.clone()),
        JsonValue::Arr(items) => {
            let mut out: Vec<JsonValue> = Vec::new();
            let mut i: usize = 0;
            while i < items.len()
                invariant
                    0 <= i <= items@.len(),
                    out@.len() == i,
                    forall|j: int| 0 <= j < i ==> out@[j]@ == items@[j]@,
                decreases items@.len() - i,
            {
                proof {
                    vstd::std_specs::vec::axiom_vec_index_decreases(*items, i as int);
                    assert(*v == JsonValue::Arr(*items));
                    assert(decreases_to!(*v => *items));
                    assert(decreases_to!(*items => items@[i as int]));
                    assert(decreases_to!(*v => items@[i as int]));
                }
                out.push(json_clone(&items[i]));
                i += 1;
            }
            proof {
                lemma_model_arr(out@);
                lemma_model_arr(items@);
                assert(JsonValue::model_arr(out@) =~= JsonValue::model_arr(items@));
            }
            JsonValue::Arr(out)
        },
        JsonValue::Obj(entries) => {
            let mut out: Vec<(String, JsonValue)> = Vec::new();
            let mut i: usize = 0;
            while i < entries.len()
                invariant
                    0 <= i <= entries@.len(),
                    out@.len() == i,
                    forall|j: int|
                        0 <= j < i ==> out@[j].0@ == entries@[j].0@ && out@[j].1@
                            == entries@[j].1@,
                decreases entries@.len() - i,
            {
                let (k, val) = &entries[i];
                proof {
                    vstd::std_specs::vec::axiom_vec_index_decreases(*entries, i as int);
                    assert(*v == JsonValue::Obj(*entries));
                    assert(decreases_to!(*v => *entries));
                    assert(decreases_to!(*entries => entries@[i as int]));
                    assert(decreases_to!(*v => entries@[i as int].1));
                }
                out.push((k.clone(), json_clone(val)));
                i += 1;
            }
            proof {
                lemma_model_obj(out@);
                lemma_model_obj(entries@);
                assert(JsonValue::model_obj(out@) =~= JsonValue::model_obj(entries@));
            }
            JsonValue::Obj(out)
        },
    }
}

/// `i` is the first entry of `es` carrying `key`.
pub open spec fn key_at(es: Seq<(Seq<char>, JsonV)>, key: Seq<char>, i: int) -> bool {
    &&& 0 <= i < es.len()
    &&& es[i].0 == key
    &&& forall|j: int| 0 <= j < i ==> (#[trigger] es[j]).0 != key
}

/// Whether some entry of `es` carries `key`.
pub open spec fn obj_has_key(es: Seq<(Seq<char>, JsonV)>, key: Seq<char>) -> bool {
    exists|i: int| 0 <= i < es.len() && (#[trigger] es[i]).0 == key
}

/// The value of the first entry of `es` carrying `key`, if any.
pub open spec fn obj_lookup(es: Seq<(Seq<char>, JsonV)>, key: Seq<char>) -> Option<JsonV> {
    if exists|i: int| key_at(es, key, i) {
        Option::Some(es[choose|i: int| key_at(es, key, i)].1)
    } else {
        Option::None
    }
}

impl JsonValue {
    /// The value under `key` when this value is an object that carries the
    /// key; `None` when the key is absent or this value is no object.
    #[verifier::loop_isolation(false)]
    pub fn get<'a>(&'a self, key: &str) -> (r: Option<&'a JsonValue>)
        ensures
            match r {
                Option::Some(v) => match self@ {
                    JsonV::Obj(es) => obj_lookup(es, key@) == Option::Some(v@),
                    _ => false,
                },
                Option::None => match self@ {
                    JsonV::Obj(es) => !obj_has_key(es, key@),
                    _ => true,
                },
            },
    {
        match self {
            JsonValue::Obj(entries) => {
                proof {
                    lemma_model_obj(entries@);
                }
                let ghost es = JsonValue::model_obj(entries@);
                let keys: String = key.to_owned();
                let mut i: usize = 0;
                while i < entries.len()
                    invariant
                        0 <= i <= entries@.len(),
                        es == JsonValue::model_obj(entries@),
                        es.len() == entries@.len(),
                        forall|j: int| 0 <= j < es.len() ==> #[trigger] es[j] == (
                            entries@[j].0@,
                            entries@[j].1@,
                        ),
                        keys@ == key@,
                        forall|j: int| 0 <= j < i ==> (#[trigger] es[j]).0 != key@,
                    decreases entries@.len() - i,
                {
                    if entries[i].0.eq(&keys) {
                        proof {
                            assert(key_at(es, key@, i as int));
                            assert forall|w: int| key_at(es, key@, w) implies w == i as int by {
                                if w < i as int {
                                    assert(es[w].0 != key@);
                                } else if w > i as int {
                                    assert(es[i as int].0 != key@);
                                }
                            }
                            let w = choose|w: int| key_at(es, key@, w);
                            assert(w == i as int);
                            assert(obj_lookup(es, key@) == Option::Some(es[i as int].1));
                            assert(es[i as int].1 == entries@[i as int].1@);
                            assert(self@ == JsonV::Obj(es));
                        }
                        return Some(&entries[i].1);
                    }
                    i += 1;
                }
                proof {
                    if obj_has_key(es, key@) {
                        let w = choose|w: int| 0 <= w < es.len() && (#[trigger] es[w]).0 == key@;
                        assert(es[w].0 != key@);
                    }
                }
                None
            },
            _ => None,
        }
    }

    /// Whether this value is an object that carries `key`.
    pub fn contains_key(&self, key: &str) -> (r: bool)
        ensures
            r == match self@ {
                JsonV::Obj(es) => obj_has_key(es, key@),
                _ => false,
            },
    {
        match self.get(key) {
            Option::Some(v) => {
                proof {
                    match self@ {
                        JsonV::Obj(es) => {
                            let i = choose|i: int| key_at(es, key@, i);
                            assert(es[i].0 == key@);
                            assert(obj_has_key(es, key@));
                        },
                        _ => {},
                    }
                }
                true
            },
            Option::None => false,
        }
    }
}

/// Appends an entry to an object's entry list.
pub fn entries_push(entries: &mut Vec<(String, JsonValue)>, key: &str, val: JsonValue)
    ensures
        JsonValue::model_obj(final(entries)@) == JsonValue::model_obj(old(entries)@).push(
            (key@, val@),
        ),
{
    let ghost va = val@;
    entries.push((key.to_owned(), val));
    proof {
        lemma_model_obj(entries@);
        lemma_model_obj(entries@.drop_last());
        assert(entries@.drop_last() == old(entries)@);
        assert(JsonValue::model_obj(entries@) =~= JsonValue::model_obj(old(entries)@).push(
            (key@, va),
        ));
    }
}

/// An object with one entry.
pub fn obj1(k: &str, v: JsonValue) -> (r: JsonValue)
    ensures
        r@ == JsonV::Obj(seq![(k@, v@)]),
{
    let ghost vv = v@;
    let mut es: Vec<(String, JsonValue)> = Vec::new();
    es.push((k.to_owned(), v));
    proof {
        lemma_model_obj(es@);
        assert(JsonValue::model_obj(es@) =~= seq![(k@, vv)]);
    }
    JsonValue::Obj(es)
}

/// Two first entries for one key are the same entry.
pub proof fn lemma_key_at_unique(es: Seq<(Seq<char>, JsonV)>, key: Seq<char>, i: int, j: int)
    requires
        key_at(es, key, i),
        key_at(es, key, j),
    ensures
        i == j,
{
    if i < j {
        assert(es[i].0 != key);
    } else if j < i {
        assert(es[j].0 != key);
    }
}

/// Merges one entry into an object's entries: the value under an already
/// present key is merged with the entry's value in place; a new key is
/// appended, its value merged with nothing.
pub open spec fn merge_one(
    ea: Seq<(Seq<char>, JsonV)>,
    entry: (Seq<char>, JsonV),
) -> Seq<(Seq<char>, JsonV)>
    decreases entry,
{
    if exists|i: int| key_at(ea, entry.0, i) {
        let i = choose|i: int| key_at(ea, entry.0, i);
        ea.update(i, (entry.0, merge_v(ea[i].1, entry.1)))
    } else {
        ea.push((entry.0, merge_v(JsonV::Null, entry.1)))
    }
}

/// Merges a second object's entries into a first one's, in order.
pub open spec fn merge_entries(
    ea: Seq<(Seq<char>, JsonV)>,
    eb: Seq<(Seq<char>, JsonV)>,
) -> Seq<(Seq<char>, JsonV)>
    decreases eb,
{
    if eb.len() == 0 {
        ea
    } else {
        merge_entries(merge_one(ea, eb.first()), eb.drop_first())
    }
}

/// A deep merge of two documents: two objects merge key by key, with the
/// second one's entries winning recursively; in every other case the
/// second document replaces the first.
pub open spec fn merge_v(a: JsonV, b: JsonV) -> JsonV
    decreases b,
{
    match b {
        JsonV::Obj(eb) => match a {
            JsonV::Obj(ea) => JsonV::Obj(merge_entries(ea, eb)),
            _ => b,
        },
        _ => b,
    }
}

/// Finds the first entry carrying `key`.
#[verifier::loop_isolation(false)]
fn find_entry(entries: &Vec<(String, JsonValue)>, key: &String) -> (r: Option<usize>)
    ensures
        match r {
            Option::Some(i) => key_at(JsonValue::model_obj(entries@), key@, i as int),
            Option::None => !obj_has_key(JsonValue::model_obj(entries@), key@),
        },
{
    proof {
        lemma_model_obj(entries@);
    }
    let ghost es = JsonValue::model_obj(entries@);
    let mut i: usize = 0;
    while i < entries.len()
        invariant
            0 <= i <= entries@.len(),
            forall|j: int| 0 <= j < i ==> (#[trigger] es[j]).0 != key@,
        decreases entries@.len() - i,
    {
        if entries[i].0.eq(key) {
            proof {
                assert(es[i as int].0 == key@);
            }
            return Some(i);
        }
        i += 1;
    }
    proof {
        if obj_has_key(es, key@) {
            let w = choose|w: int| 0 <= w < es.len() && (#[trigger] es[w]).0 == key@;
            assert(es[w].0 != key@);
        }
    }
    None
}

/// Computes the deep merge of two documents.
#[verifier::loop_isolation(false)]
pub fn merge(a: &JsonValue, b: &JsonValue) -> (r: JsonValue)
    ensures
        r@ == merge_v(a@, b@),
    decreases *b,
{
    match (a, b) {
        (JsonValue::Obj(ea), JsonValue::Obj(eb)) => {
            let ghost ea0 = JsonValue::model_obj(ea@);
            let ghost eb0 = JsonValue::model_obj(eb@);
            proof {
                lemma_model_obj(ea@);
                lemma_model_obj(eb@);
            }
            let mut acc: Vec<(String, JsonValue)> = crate::render::entries_clone(ea);
            proof {
                assert(eb0.skip(0) =~= eb0);
            }
            let mut i: usize = 0;
            while i < eb.len()
                invariant
                    0 <= i <= eb@.len(),
                    merge_entries(JsonValue::model_obj(acc@), eb0.skip(i as int)) == merge_entries(
                        ea0,
                        eb0,
                    ),
                decreases eb@.len() - i,
            {
                proof {
                    assert(eb0.skip(i as int).len() > 0);
                    assert(eb0.skip(i as int).first() == eb0[i as int]);
                    assert(eb0.skip(i as int).drop_first() =~= eb0.skip(i as int + 1));
                    lemma_model_obj(acc@);
                }
                let ghost acc0 = JsonValue::model_obj(acc@);
                let (k, v) = &eb[i];
                proof {
                    vstd::std_specs::vec::axiom_vec_index_decreases(*eb, i as int);
                    assert(decreases_to!(*b => eb@[i as int].1));
                }
                match find_entry(&acc, k) {
                    Option::Some(j) => {
                        let merged = merge(&acc[j].1, v);
                        let ghost mergedv = merged@;
                        let ghost accv = acc@;
                        let (k2, _prev) = acc.remove(j);
                        acc.insert(j, (k2, merged));
                        proof {
                            assert(acc@ =~= accv.update(j as int, (accv[j as int].0, merged)));
                            lemma_model_obj(acc@);
                            assert(mergedv == merge_v(acc0[j as int].1, eb0[i as int].1));
                            assert(JsonValue::model_obj(acc@) =~= acc0.update(
                                j as int,
                                (k@, merge_v(acc0[j as int].1, eb0[i as int].1)),
                            ));
                            let w = choose|w: int| key_at(acc0, k@, w);
                            lemma_key_at_unique(acc0, k@, w, j as int);
                            assert(JsonValue::model_obj(acc@) == merge_one(acc0, eb0[i as int]));
                        }
                    },
                    Option::None => {
                        let nullv = JsonValue::Null;
                        let merged = merge(&nullv, v);
                        acc.push((k.clone(), merged));
                        proof {
                            lemma_model_obj(acc@);
                            assert(JsonValue::model_obj(acc@) =~= merge_one(acc0, eb0[i as int]));
                        }
                    },
                }
                i += 1;
            }
            proof {
                assert(eb0.skip(eb@.len() as int) =~= Seq::<(Seq<char>, JsonV)>::empty());
            }
            JsonValue::Obj(acc)
        },
        (_, y) => crate::json::json_clone(y),
    }
}

} // verus!
