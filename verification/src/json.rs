//! JSON documents as the manifest language sees them: a mathematical model
//! (`Json`), the executable value (`JsonValue`) and objects whose keys are
//! kept in ascending order (`JsonMap`), the order in which an object's members
//! are visited and written.
use vstd::prelude::*;
use crate::text::{chars_of, key_less, key_lt, lemma_key_order, same_text};

verus! {

/// The mathematical model of a JSON document. A number is kept as the text
/// that denotes it; an object is its members in ascending key order.
pub enum Json {
    Null,
    Bool(bool),
    Number(Seq<char>),
    Str(Seq<char>),
    Array(Seq<Json>),
    Object(Seq<(Seq<char>, Json)>),
}

/// The members' keys strictly increase, so no key occurs twice.
pub open spec fn keys_sorted(es: Seq<(Seq<char>, Json)>) -> bool {
    forall|i: int, j: int| 0 <= i < j < es.len() ==> key_lt(#[trigger] es[i].0, #[trigger] es[j].0)
}

/// The value of member `k`, if there is one.
pub open spec fn entries_get(es: Seq<(Seq<char>, Json)>, k: Seq<char>) -> Option<Json>
    decreases es.len(),
{
    if es.len() == 0 {
        None
    } else if es[0].0 == k {
        Some(es[0].1)
    } else {
        entries_get(es.drop_first(), k)
    }
}

/// The members after `k` is set to `v`: an existing member `k` takes the new
/// value in place; otherwise the member is added at its place in key order.
pub open spec fn entries_insert(es: Seq<(Seq<char>, Json)>, k: Seq<char>, v: Json) -> Seq<
    (Seq<char>, Json),
>
    decreases es.len(),
{
    if es.len() == 0 {
        seq![(k, v)]
    } else if es[0].0 == k {
        es.update(0, (k, v))
    } else if key_lt(k, es[0].0) {
        seq![(k, v)] + es
    } else {
        seq![es[0]] + entries_insert(es.drop_first(), k, v)
    }
}

/// The members without member `k`.
pub open spec fn entries_remove(es: Seq<(Seq<char>, Json)>, k: Seq<char>) -> Seq<
    (Seq<char>, Json),
>
    decreases es.len(),
{
    if es.len() == 0 {
        es
    } else if es[0].0 == k {
        entries_remove(es.drop_first(), k)
    } else {
        seq![es[0]] + entries_remove(es.drop_first(), k)
    }
}

/// A JSON value.
#[derive(Debug, PartialEq)]
pub enum JsonValue {
    Null,
    Bool(bool),
    /// A number, held as the decimal text that denotes it.
    Number(String),
    Str(String),
    Array(Vec<JsonValue>),
    Object(JsonMap),
}

/// A JSON object: its members, kept in ascending key order.
#[derive(Debug, PartialEq)]
pub struct JsonMap {
    entries: Vec<(String, JsonValue)>,
}

/// The model of a list of members.
pub open spec fn entries_model(es: Seq<(String, JsonValue)>) -> Seq<(Seq<char>, Json)>
    decreases es,
{
    Seq::new(
        es.len(),
        |i: int|
            if 0 <= i < es.len() {
                proof {
                    assert(decreases_to!(es => es[i]));
                }
                (es[i].0@, es[i].1.model())
            } else {
                (Seq::<char>::empty(), Json::Null)
            },
    )
}

/// The model of a list of values.
pub open spec fn values_model(vs: Seq<JsonValue>) -> Seq<Json>
    decreases vs,
{
    Seq::new(
        vs.len(),
        |i: int|
            if 0 <= i < vs.len() {
                proof {
                    assert(decreases_to!(vs => vs[i]));
                }
                vs[i].model()
            } else {
                Json::Null
            },
    )
}

/// Position by position, the model of a list of members.
pub proof fn lemma_entries_model(es: Seq<(String, JsonValue)>)
    ensures
        entries_model(es).len() == es.len(),
        forall|i: int|
            0 <= i < es.len() ==> #[trigger] entries_model(es)[i] == (es[i].0@, es[i].1.model()),
{
}

/// Position by position, the model of a list of values.
pub proof fn lemma_values_model(vs: Seq<JsonValue>)
    ensures
        values_model(vs).len() == vs.len(),
        forall|i: int| 0 <= i < vs.len() ==> #[trigger] values_model(vs)[i] == vs[i].model(),
{
}

impl JsonValue {
    /// The document this value denotes.
    pub open spec fn model(self) -> Json
        decreases self,
    {
        match self {
            JsonValue::Null => Json::Null,
            JsonValue::Bool(b) => Json::Bool(b),
            JsonValue::Number(t) => Json::Number(t@),
            JsonValue::Str(s) => Json::Str(s@),
            JsonValue::Array(items) => {
                proof {
                    assert(decreases_to!(items => items@));
                }
                Json::Array(values_model(items@))
            },
            JsonValue::Object(m) => Json::Object(m.model()),
        }
    }

    /// A value equal to this one.
    #[verifier::loop_isolation(false)]
    pub fn duplicate(&self) -> (r: JsonValue)
        ensures
            r.model() == self.model(),
        decreases self,
    {
        match self {
            JsonValue::Null => JsonValue::Null,
            JsonValue::Bool(b) => JsonValue::Bool(*b),
            JsonValue::Number(t) => JsonValue::Number(t.clone()),
            JsonValue::Str(s) => JsonValue::Str(s.clone()),
            JsonValue::Array(items) => {
                let mut out: Vec<JsonValue> = Vec::new();
                let mut i: usize = 0;
                while i < items.len()
                    invariant
                        i <= items.len(),
                        values_model(out@) == values_model(items@).subrange(0, i as int),
                    decreases items.len() - i,
                {
                    proof {
                        assert(decreases_to!(*self => *items));
                        assert(decreases_to!(*items => items@[i as int]));
                    }
                    let c = items[i].duplicate();
                    let ghost before = out@;
                    out.push(c);
                    i = i + 1;
                    proof {
                        lemma_values_model(before);
                        lemma_values_model(out@);
                        lemma_values_model(items@);
                    }
                    assert(values_model(out@) =~= values_model(items@).subrange(0, i as int));
                }
                assert(values_model(out@) =~= values_model(items@));
                JsonValue::Array(out)
            },
            JsonValue::Object(m) => JsonValue::Object(m.duplicate()),
        }
    }
}

impl JsonMap {
    /// The members, in ascending key order.
    pub closed spec fn model(self) -> Seq<(Seq<char>, Json)>
        decreases self,
    {
        proof {
            assert(decreases_to!(self.entries => self.entries@));
        }
        entries_model(self.entries@)
    }

    proof fn lemma_sorted(self)
        requires
            self.keys_ascending(),
        ensures
            keys_sorted(self.model()),
    {
        lemma_entries_model(self.entries@);
        let es = self.model();
        assert forall|i: int, j: int| 0 <= i < j < es.len() implies key_lt(
            #[trigger] es[i].0,
            #[trigger] es[j].0,
        ) by {
            assert(es[i].0 == self.entries@[i].0@);
            assert(es[j].0 == self.entries@[j].0@);
        }
    }

    #[verifier::type_invariant]
    spec fn keys_ascending(self) -> bool {
        forall|i: int, j: int|
            0 <= i < j < self.entries@.len() ==> key_lt(
                #[trigger] self.entries@[i].0@,
                #[trigger] self.entries@[j].0@,
            )
    }

    /// The empty object.
    pub fn new() -> (m: JsonMap)
        ensures
            m.model() == Seq::<(Seq<char>, Json)>::empty(),
    {
        let m = JsonMap { entries: Vec::new() };
        assert(m.model() =~= Seq::<(Seq<char>, Json)>::empty());
        m
    }

    /// The number of members.
    pub fn len(&self) -> (n: usize)
        ensures
            n == self.model().len(),
    {
        self.entries.len()
    }

    /// The members, in ascending key order.
    pub fn entries(&self) -> (es: &Vec<(String, JsonValue)>)
        ensures
            entries_model(es@) == self.model(),
            keys_sorted(self.model()),
            decreases_to!(*self => *es),
    {
        proof {
            use_type_invariant(self);
            self.lemma_sorted();
        }
        &self.entries
    }

    /// Consumes the object and hands back its members in ascending key order.
    pub fn into_entries(self) -> (es: Vec<(String, JsonValue)>)
        ensures
            entries_model(es@) == self.model(),
            keys_sorted(self.model()),
    {
        proof {
            use_type_invariant(&self);
            self.lemma_sorted();
        }
        self.entries
    }

    /// An object equal to this one.
    pub fn duplicate(&self) -> (r: JsonMap)
        ensures
            r.model() == self.model(),
        decreases self,
    {
        proof {
            use_type_invariant(self);
        }
        let mut out: Vec<(String, JsonValue)> = Vec::new();
        let mut i: usize = 0;
        while i < self.entries.len()
            invariant
                i <= self.entries.len(),
                entries_model(out@) == entries_model(self.entries@).subrange(0, i as int),
                out@.len() == i,
                forall|k: int| 0 <= k < i ==> #[trigger] out@[k].0@ == self.entries@[k].0@,
            decreases self.entries.len() - i,
        {
            let k = self.entries[i].0.clone();
            let v = self.entries[i].1.duplicate();
            let ghost before = out@;
            out.push((k, v));
            i = i + 1;
            proof {
                lemma_entries_model(before);
                lemma_entries_model(out@);
                lemma_entries_model(self.entries@);
            }
            assert(entries_model(out@) =~= entries_model(self.entries@).subrange(0, i as int));
        }
        assert(entries_model(out@) =~= entries_model(self.entries@));
        JsonMap { entries: out }
    }

    /// The value of member `key`.
    pub fn get(&self, key: &str) -> (r: Option<&JsonValue>)
        ensures
            match entries_get(self.model(), key@) {
                Some(j) => r is Some && r->0.model() == j,
                None => r is None,
            },
    {
        let ghost es = self.model();
        let mut i: usize = 0;
        assert(es.skip(0) =~= es);
        while i < self.entries.len()
            invariant
                i <= self.entries.len(),
                es == entries_model(self.entries@),
                entries_get(es, key@) == entries_get(es.skip(i as int), key@),
            decreases self.entries.len() - i,
        {
            assert(es.skip(i as int).drop_first() =~= es.skip(i + 1));
            if same_text(self.entries[i].0.as_str(), key) {
                return Some(&self.entries[i].1);
            }
            i = i + 1;
        }
        None
    }

    /// Sets member `key` to `value`.
    pub fn insert(&mut self, key: String, value: JsonValue)
        ensures
            final(self).model() == entries_insert(old(self).model(), key@, value.model()),
            keys_sorted(final(self).model()),
    {
        proof {
            use_type_invariant(&*self);
            self.lemma_sorted();
            lemma_key_order();
            lemma_entries_model(self.entries@);
        }
        let ghost es = self.model();
        let mut items: Vec<(String, JsonValue)> = Vec::new();
        std::mem::swap(&mut items, &mut self.entries);
        assert(entries_model(items@) == es);
        proof {
            lemma_entries_model(items@);
        }
        let kc = chars_of(key.as_str());
        let mut p: usize = 0;
        while p < items.len() && key_at_less(&items, p, &kc)
            invariant
                p <= items.len(),
                entries_model(items@) == es,
                kc@ == key@,
                forall|j: int| 0 <= j < p ==> key_lt(#[trigger] items@[j].0@, key@),
            decreases items.len() - p,
        {
            p = p + 1;
        }
        proof {
            lemma_insert_at(es, key@, value.model(), p as int);
        }
        if p < items.len() && same_text(items[p].0.as_str(), key.as_str()) {
            let ghost vm = value.model();
            items.set(p, (key, value));
            assert(entries_model(items@) =~= es.update(p as int, (key@, vm)));
        } else {
            let ghost vm = value.model();
            let ghost old_items = items@;
            items.insert(p, (key, value));
            assert(entries_model(items@) =~= es.take(p as int) + seq![(key@, vm)] + es.skip(
                p as int,
            ));
            assert forall|i: int, j: int|
                0 <= i < j < items@.len() implies key_lt(
                #[trigger] items@[i].0@,
                #[trigger] items@[j].0@,
            ) by {
                if j < p {
                } else if i < p && j == p {
                } else if i < p {
                    assert(items@[j] == old_items[j - 1]);
                } else if i == p {
                    assert(items@[j] == old_items[j - 1]);
                    assert(key_lt(key@, old_items[p as int].0@));
                    if j - 1 > p {
                        assert(key_lt(old_items[p as int].0@, old_items[j - 1].0@));
                    }
                } else {
                    assert(items@[i] == old_items[i - 1]);
                    assert(items@[j] == old_items[j - 1]);
                }
            }
        }
        self.entries = items;
        proof {
            use_type_invariant(&*self);
            self.lemma_sorted();
        }
    }

    /// Removes member `key`, handing back its value.
    pub fn remove(&mut self, key: &str) -> (r: Option<JsonValue>)
        ensures
            final(self).model() == entries_remove(old(self).model(), key@),
            match entries_get(old(self).model(), key@) {
                Some(j) => r is Some && r->0.model() == j,
                None => r is None,
            },
    {
        proof {
            use_type_invariant(&*self);
            self.lemma_sorted();
            lemma_key_order();
            lemma_entries_model(self.entries@);
        }
        let ghost es = self.model();
        let mut items: Vec<(String, JsonValue)> = Vec::new();
        std::mem::swap(&mut items, &mut self.entries);
        proof {
            lemma_entries_model(items@);
        }
        let mut i: usize = 0;
        while i < items.len()
            invariant
                i <= items.len(),
                entries_model(items@) == es,
                es == old(self).model(),
                keys_sorted(es),
                forall|j: int| 0 <= j < i ==> items@[j].0@ != key@,
            decreases items.len() - i,
        {
            proof {
                lemma_entries_model(items@);
            }
            if same_text(items[i].0.as_str(), key) {
                let ghost old_items = items@;
                proof {
                    lemma_remove_at(es, key@, i as int);
                }
                let (_, v) = items.remove(i);
                proof {
                    lemma_entries_model(items@);
                }
                assert(entries_model(items@) =~= es.take(i as int) + es.skip(i + 1));
                assert forall|a: int, b: int|
                    0 <= a < b < items@.len() implies key_lt(
                    #[trigger] items@[a].0@,
                    #[trigger] items@[b].0@,
                ) by {
                    if b < i {
                        assert(items@[a] == old_items[a]);
                        assert(items@[b] == old_items[b]);
                        assert(key_lt(es[a].0, es[b].0));
                    } else if a < i {
                        assert(items@[a] == old_items[a]);
                        assert(items@[b] == old_items[b + 1]);
                        assert(key_lt(es[a].0, es[b + 1].0));
                    } else {
                        assert(items@[a] == old_items[a + 1]);
                        assert(items@[b] == old_items[b + 1]);
                        assert(key_lt(es[a + 1].0, es[b + 1].0));
                    }
                }
                assert(entries_remove(es, key@) == entries_model(items@));
                assert(v.model() == es[i as int].1);
                self.entries = items;
                return Some(v);
            }
            i = i + 1;
        }
        proof {
            lemma_entries_model(items@);
            lemma_remove_absent(es, key@);
            assert forall|a: int, b: int|
                0 <= a < b < items@.len() implies key_lt(
                #[trigger] items@[a].0@,
                #[trigger] items@[b].0@,
            ) by {
                assert(es[a].0 == items@[a].0@);
                assert(es[b].0 == items@[b].0@);
            }
        }
        self.entries = items;
        None
    }
}

/// Whether the key at position `p` sorts before `kc`.
fn key_at_less(items: &Vec<(String, JsonValue)>, p: usize, kc: &Vec<char>) -> (r: bool)
    requires
        p < items.len(),
    ensures
        r == key_lt(items@[p as int].0@, kc@),
{
    let pk = chars_of(items[p].0.as_str());
    key_less(&pk, kc)
}

pub(crate) proof fn lemma_insert_at(es: Seq<(Seq<char>, Json)>, k: Seq<char>, v: Json, p: int)
    requires
        0 <= p <= es.len(),
        keys_sorted(es),
        forall|j: int| 0 <= j < p ==> key_lt(#[trigger] es[j].0, k),
        p < es.len() ==> !key_lt(es[p].0, k),
    ensures
        p < es.len() && es[p].0 == k ==> entries_insert(es, k, v) == es.update(p, (k, v)),
        !(p < es.len() && es[p].0 == k) ==> entries_insert(es, k, v) == es.take(p) + seq![(k, v)]
            + es.skip(p),
        !(p < es.len() && es[p].0 == k) && p < es.len() ==> key_lt(k, es[p].0),
    decreases p,
{
    lemma_key_order();
    if p == 0 {
        if es.len() == 0 {
            assert(es.take(0) + seq![(k, v)] + es.skip(0) =~= seq![(k, v)]);
        } else if es[0].0 == k {
        } else {
            assert(key_lt(k, es[0].0));
            assert(es.take(0) + seq![(k, v)] + es.skip(0) =~= seq![(k, v)] + es);
        }
    } else {
        let rest = es.drop_first();
        assert(key_lt(es[0].0, k));
        assert(es[0].0 != k);
        assert(!key_lt(k, es[0].0));
        assert forall|i: int, j: int| 0 <= i < j < rest.len() implies key_lt(
            #[trigger] rest[i].0,
            #[trigger] rest[j].0,
        ) by {
            assert(rest[i] == es[i + 1]);
            assert(rest[j] == es[j + 1]);
        }
        assert forall|j: int| 0 <= j < p - 1 implies key_lt(#[trigger] rest[j].0, k) by {
            assert(rest[j] == es[j + 1]);
        }
        lemma_insert_at(rest, k, v, p - 1);
        if p < es.len() && es[p].0 == k {
            assert(seq![es[0]] + rest.update(p - 1, (k, v)) =~= es.update(p, (k, v)));
        } else {
            assert(seq![es[0]] + (rest.take(p - 1) + seq![(k, v)] + rest.skip(p - 1)) =~= es.take(p)
                + seq![(k, v)] + es.skip(p));
        }
    }
}

proof fn lemma_remove_absent(es: Seq<(Seq<char>, Json)>, k: Seq<char>)
    requires
        forall|j: int| 0 <= j < es.len() ==> es[j].0 != k,
    ensures
        entries_remove(es, k) == es,
        entries_get(es, k) is None,
    decreases es.len(),
{
    if es.len() > 0 {
        let rest = es.drop_first();
        assert forall|j: int| 0 <= j < rest.len() implies rest[j].0 != k by {
            assert(rest[j] == es[j + 1]);
        }
        lemma_remove_absent(rest, k);
        assert(seq![es[0]] + rest =~= es);
    }
}

proof fn lemma_remove_at(es: Seq<(Seq<char>, Json)>, k: Seq<char>, i: int)
    requires
        0 <= i < es.len(),
        keys_sorted(es),
        es[i].0 == k,
        forall|j: int| 0 <= j < i ==> es[j].0 != k,
    ensures
        entries_remove(es, k) == es.take(i) + es.skip(i + 1),
        entries_get(es, k) == Some(es[i].1),
    decreases i,
{
    lemma_key_order();
    let rest = es.drop_first();
    assert forall|a: int, b: int| 0 <= a < b < rest.len() implies key_lt(
        #[trigger] rest[a].0,
        #[trigger] rest[b].0,
    ) by {
        assert(rest[a] == es[a + 1]);
        assert(rest[b] == es[b + 1]);
    }
    if i == 0 {
        assert forall|j: int| 0 <= j < rest.len() implies rest[j].0 != k by {
            assert(rest[j] == es[j + 1]);
            assert(key_lt(es[0].0, es[j + 1].0));
        }
        lemma_remove_absent(rest, k);
        assert(es.take(0) + es.skip(1) =~= rest);
    } else {
        assert forall|j: int| 0 <= j < i - 1 implies rest[j].0 != k by {
            assert(rest[j] == es[j + 1]);
        }
        lemma_remove_at(rest, k, i - 1);
        assert(seq![es[0]] + (rest.take(i - 1) + rest.skip(i)) =~= es.take(i) + es.skip(i + 1));
    }
}

/// Reading a member back after setting it gives the value that was set; the
/// other members keep their values.
pub proof fn law_get_after_insert(es: Seq<(Seq<char>, Json)>, k: Seq<char>, v: Json, k2: Seq<char>)
    ensures
        entries_get(entries_insert(es, k, v), k2) == if k2 == k {
            Some(v)
        } else {
            entries_get(es, k2)
        },
    decreases es.len(),
{
    let ins = entries_insert(es, k, v);
    if es.len() == 0 {
        assert(ins == seq![(k, v)]);
        assert(ins[0] == (k, v));
        assert(ins.drop_first() =~= Seq::<(Seq<char>, Json)>::empty());
        assert(entries_get(Seq::<(Seq<char>, Json)>::empty(), k2) is None);
        assert(entries_get(es, k2) is None);
    } else if es[0].0 == k {
        assert(ins == es.update(0, (k, v)));
        assert(ins[0] == (k, v));
        assert(ins.drop_first() =~= es.drop_first());
    } else if key_lt(k, es[0].0) {
        assert(ins == seq![(k, v)] + es);
        assert(ins[0] == (k, v));
        assert(ins.drop_first() =~= es);
    } else {
        law_get_after_insert(es.drop_first(), k, v, k2);
        assert(ins == seq![es[0]] + entries_insert(es.drop_first(), k, v));
        assert(ins[0] == es[0]);
        assert(ins.drop_first() =~= entries_insert(es.drop_first(), k, v));
        if k2 != es[0].0 {
            assert(entries_get(ins, k2) == entries_get(entries_insert(es.drop_first(), k, v), k2));
            assert(entries_get(es, k2) == entries_get(es.drop_first(), k2));
        }
    }
}

/// After a member is removed it reads as absent; the other members keep their
/// values.
pub proof fn law_get_after_remove(es: Seq<(Seq<char>, Json)>, k: Seq<char>, k2: Seq<char>)
    ensures
        entries_get(entries_remove(es, k), k2) == if k2 == k {
            None
        } else {
            entries_get(es, k2)
        },
    decreases es.len(),
{
    if es.len() > 0 {
        law_get_after_remove(es.drop_first(), k, k2);
        if es[0].0 != k {
            let r = entries_remove(es, k);
            assert(r.drop_first() =~= entries_remove(es.drop_first(), k));
        }
    }
}

/// A member found in a list of members is at some position.
pub proof fn lemma_get_position(es: Seq<(Seq<char>, Json)>, k: Seq<char>)
    ensures
        entries_get(es, k) is Some ==> exists|i: int|
            0 <= i < es.len() && #[trigger] es[i].0 == k && es[i].1 == entries_get(es, k)->0,
    decreases es.len(),
{
    if es.len() > 0 && es[0].0 != k {
        lemma_get_position(es.drop_first(), k);
        if entries_get(es, k) is Some {
            let i = choose|i: int|
                0 <= i < es.drop_first().len() && #[trigger] es.drop_first()[i].0 == k
                    && es.drop_first()[i].1 == entries_get(es.drop_first(), k)->0;
            assert(es[i + 1].0 == k);
        }
    }
}

/// Looking a member up from the back: the earlier members are searched first,
/// then the last.
pub proof fn lemma_get_drop_last(es: Seq<(Seq<char>, Json)>, k: Seq<char>)
    requires
        es.len() > 0,
    ensures
        entries_get(es, k) == match entries_get(es.drop_last(), k) {
            Some(x) => Some(x),
            None => if es.last().0 == k {
                Some(es.last().1)
            } else {
                None
            },
        },
    decreases es.len(),
{
    if es.len() == 1 {
        assert(es.drop_last() =~= Seq::<(Seq<char>, Json)>::empty());
        assert(es.drop_first() =~= Seq::<(Seq<char>, Json)>::empty());
    } else if es[0].0 != k {
        lemma_get_drop_last(es.drop_first(), k);
        assert(es.drop_first().drop_last() =~= es.drop_last().drop_first());
    }
}

/// No member of a list from which `k` was removed has the key `k`.
pub proof fn lemma_remove_gone(es: Seq<(Seq<char>, Json)>, k: Seq<char>)
    ensures
        forall|i: int| 0 <= i < entries_remove(es, k).len() ==> #[trigger] entries_remove(es, k)[i].0 != k,
    decreases es.len(),
{
    if es.len() > 0 {
        lemma_remove_gone(es.drop_first(), k);
        if es[0].0 != k {
            let r = entries_remove(es, k);
            assert forall|i: int| 0 <= i < r.len() implies #[trigger] r[i].0 != k by {
                if i > 0 {
                    assert(r[i] == entries_remove(es.drop_first(), k)[i - 1]);
                }
            }
        }
    }
}

/// In sorted members, the first key does not occur again.
proof fn lemma_first_key_once(es: Seq<(Seq<char>, Json)>)
    requires
        es.len() > 0,
        keys_sorted(es),
    ensures
        entries_get(es.drop_first(), es[0].0) is None,
{
    lemma_key_order();
    lemma_get_position(es.drop_first(), es[0].0);
    if entries_get(es.drop_first(), es[0].0) is Some {
        let i = choose|i: int|
            0 <= i < es.drop_first().len() && #[trigger] es.drop_first()[i].0 == es[0].0
                && es.drop_first()[i].1 == entries_get(es.drop_first(), es[0].0)->0;
        assert(es[i + 1].0 == es[0].0);
        assert(key_lt(es[0].0, es[i + 1].0));
    }
}

/// Sorted members are determined by what each key reads: two sorted lists of
/// members that agree on every key are the same list.
pub proof fn lemma_sorted_members_unique(a: Seq<(Seq<char>, Json)>, b: Seq<(Seq<char>, Json)>)
    requires
        keys_sorted(a),
        keys_sorted(b),
        forall|k: Seq<char>| entries_get(a, k) == entries_get(b, k),
    ensures
        a == b,
    decreases a.len(),
{
    lemma_key_order();
    if a.len() == 0 {
        if b.len() > 0 {
            assert(entries_get(b, b[0].0) is Some);
            assert(entries_get(a, b[0].0) is None);
        }
        assert(a =~= b);
    } else {
        assert(entries_get(a, a[0].0) is Some);
        assert(b.len() > 0) by {
            if b.len() == 0 {
                assert(entries_get(b, a[0].0) is None);
            }
        }
        let ka = a[0].0;
        let kb = b[0].0;
        if ka != kb {
            lemma_get_position(b, ka);
            assert(entries_get(b, ka) is Some);
            let j = choose|j: int|
                0 <= j < b.len() && #[trigger] b[j].0 == ka && b[j].1 == entries_get(b, ka)->0;
            assert(j > 0);
            assert(key_lt(b[0].0, b[j].0));
            assert(entries_get(b, kb) is Some);
            lemma_get_position(a, kb);
            let i = choose|i: int|
                0 <= i < a.len() && #[trigger] a[i].0 == kb && a[i].1 == entries_get(a, kb)->0;
            assert(i > 0);
            assert(key_lt(a[0].0, a[i].0));
            assert(false);
        }
        assert(entries_get(a, ka) == Some(a[0].1));
        assert(entries_get(b, ka) == Some(b[0].1));
        assert(a[0] == b[0]);
        let ta = a.drop_first();
        let tb = b.drop_first();
        lemma_first_key_once(a);
        lemma_first_key_once(b);
        assert forall|i: int, j: int| 0 <= i < j < ta.len() implies key_lt(
            #[trigger] ta[i].0,
            #[trigger] ta[j].0,
        ) by {
            assert(ta[i] == a[i + 1]);
            assert(ta[j] == a[j + 1]);
        }
        assert forall|i: int, j: int| 0 <= i < j < tb.len() implies key_lt(
            #[trigger] tb[i].0,
            #[trigger] tb[j].0,
        ) by {
            assert(tb[i] == b[i + 1]);
            assert(tb[j] == b[j + 1]);
        }
        assert forall|k: Seq<char>| entries_get(ta, k) == entries_get(tb, k) by {
            if k != ka {
                assert(entries_get(a, k) == entries_get(ta, k));
                assert(entries_get(b, k) == entries_get(tb, k));
            }
        }
        lemma_sorted_members_unique(ta, tb);
        assert(a =~= seq![a[0]] + ta);
        assert(b =~= seq![b[0]] + tb);
    }
}

/// `serde_json`'s document type, carried only into the conversion below.
#[verifier::external_type_specification]
#[verifier::external_body]
pub struct ExSerdeJsonValue(serde_json::Value);

/// The library's value for a `serde_json` document, one for one: the same
/// variant with the same contents (a number as the text that `serde_json`
/// displays for it, an object's members set in turn). Only the parsing
/// wrappers call it, and their contracts state what comes out.
#[verifier::external_body]
pub(crate) fn json_of_serde(v: serde_json::Value) -> JsonValue {
    match v {
        serde_json::Value::Null => JsonValue::Null,
        serde_json::Value::Bool(b) => JsonValue::Bool(b),
        serde_json::Value::Number(n) => JsonValue::Number(n.to_string()),
        serde_json::Value::String(t) => JsonValue::Str(t),
        serde_json::Value::Array(items) => JsonValue::Array(items.into_iter().map(json_of_serde).collect()),
        serde_json::Value::Object(members) => {
            let mut m = JsonMap::new();
            for (k, x) in members {
                m.insert(k, json_of_serde(x));
            }
            JsonValue::Object(m)
        },
    }
}

} // verus!
