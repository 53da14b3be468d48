//! What a native contract step decides around its contract: the input
//! document built from the step's input rules, and the store updates built
//! from the contract's output by the step's `->` mappings, whose strings
//! `out(path)` point into that output.
use vstd::prelude::*;
use crate::json::{
    Json, JsonMap, JsonValue, entries_get, entries_insert, keys_sorted, law_get_after_insert, lemma_insert_at,
    lemma_get_drop_last, lemma_get_position, entries_model, lemma_entries_model, lemma_values_model,
    values_model,
};
use crate::pointer::{pointer, pointer_get};
use crate::resolver::{reference_path, resolve_all, resolve_mappings};
use crate::text::{key_lt, lemma_key_order, chars_of, ends_with, extend_chars, has_prefix, has_suffix, slice_chars, starts_with, string_of};

verus! {

/// A string of the form `out(...)`.
pub open spec fn is_output_ref(s: Seq<char>) -> bool {
    starts_with(s, "out("@) && ends_with(s, ")"@)
}

/// The message for an output pointer that names nothing.
pub open spec fn missing_output_message(path: Seq<char>) -> Seq<char> {
    "Pointer resolution fault: path '"@ + path
        + "' not found within contract output schema."@
}

/// The value that a store mapping gives for contract output `out`: objects and
/// arrays are rebuilt member by member, element by element; an `out(...)`
/// string becomes what its pointer names in the output (an error when it names
/// nothing); every other value stands for itself. The first error, in order,
/// is the result.
pub open spec fn store_value(rule: Json, out: Json) -> Result<Json, Seq<char>>
    decreases rule,
{
    match rule {
        Json::Object(es) => match store_members(es, out) {
            Ok(m) => Ok(Json::Object(m)),
            Err(e) => Err(e),
        },
        Json::Array(items) => match store_items(items, out) {
            Ok(vs) => Ok(Json::Array(vs)),
            Err(e) => Err(e),
        },
        Json::Str(s) => if is_output_ref(s) {
            match pointer_get(out, reference_path(s)) {
                Some(v) => Ok(v),
                None => Err(missing_output_message(reference_path(s))),
            }
        } else {
            Ok(rule)
        },
        _ => Ok(rule),
    }
}

/// An `out(p)` string gives whatever the pointer `p` (with a `/` put in front
/// when it has none) names inside the output, null included; it fails only
/// when the pointer names nothing.
pub proof fn law_output_reference_reads_pointer(p: Seq<char>, out: Json)
    ensures
        ({
            let ptr = if p.len() > 0 && p[0] == '/' {
                p
            } else {
                seq!['/'] + p
            };
            let r = store_value(Json::Str(seq!['o', 'u', 't', '('] + p + seq![')']), out);
            match pointer_get(out, ptr) {
                Some(w) => r == Ok::<Json, Seq<char>>(w),
                None => r == Err::<Json, Seq<char>>(missing_output_message(ptr)),
            }
        }),
{
    lemma_out_literals();
    reveal_strlit("/");
    let s = seq!['o', 'u', 't', '('] + p + seq![')'];
    assert(s.subrange(0, 4) =~= "out("@);
    assert(s.subrange(s.len() - 1, s.len() as int) =~= ")"@);
    assert(is_output_ref(s));
    assert(s.subrange(4, s.len() - 1) =~= p);
    if p.len() > 0 {
        assert(p.subrange(0, 1) =~= seq![p[0]]);
    }
    assert("/"@ =~= seq!['/']);
}

/// The members of a mapping object with their values, set one after the
/// other into a new object.
pub open spec fn store_members(es: Seq<(Seq<char>, Json)>, out: Json) -> Result<
    Seq<(Seq<char>, Json)>,
    Seq<char>,
>
    decreases es,
{
    if es.len() == 0 {
        Ok(Seq::empty())
    } else {
        proof {
            assert(decreases_to!(es => es.drop_last()));
        }
        match store_members(es.drop_last(), out) {
            Ok(m) => match store_value(es.last().1, out) {
                Ok(v) => Ok(entries_insert(m, es.last().0, v)),
                Err(e) => Err(e),
            },
            Err(e) => Err(e),
        }
    }
}

/// The elements of a mapping array with their values.
pub open spec fn store_items(items: Seq<Json>, out: Json) -> Result<Seq<Json>, Seq<char>>
    decreases items,
{
    if items.len() == 0 {
        Ok(Seq::empty())
    } else {
        proof {
            assert(decreases_to!(items => items.drop_last()));
        }
        match store_items(items.drop_last(), out) {
            Ok(vs) => match store_value(items.last(), out) {
                Ok(v) => Ok(vs.push(v)),
                Err(e) => Err(e),
            },
            Err(e) => Err(e),
        }
    }
}

pub(crate) proof fn lemma_out_literals()
    ensures
        "out("@ == seq!['o', 'u', 't', '('],
        ")"@ == seq![')'],
{
    reveal_strlit("out(");
    reveal_strlit(")");
    assert("out("@ =~= seq!['o', 'u', 't', '(']);
    assert(")"@ =~= seq![')']);
}

/// The value that store mapping `rule` gives for contract output `out`.
#[verifier::loop_isolation(false)]
pub fn resolve_nested_store_value(rule: &JsonValue, out: &JsonValue) -> (r: Result<JsonValue, String>)
    ensures
        match store_value(rule.model(), out.model()) {
            Ok(v) => r is Ok && r->Ok_0.model() == v,
            Err(e) => r is Err && r->Err_0@ == e,
        },
        free_of_output_refs(rule.model()) ==> r is Ok && r->Ok_0.model() == rule.model(),
    decreases rule,
{
    match rule {
        JsonValue::Object(m) => {
            let es = m.entries();
            let ghost ms = m.model();
            proof {
                lemma_entries_model(es@);
            }
            let mut acc = JsonMap::new();
            let mut i: usize = 0;
            assert(ms.subrange(0, 0) =~= Seq::<(Seq<char>, Json)>::empty());
            while i < es.len()
                invariant
                    i <= es.len(),
                    ms == entries_model(es@),
                    store_members(ms.subrange(0, i as int), out.model()) == Ok::<
                        Seq<(Seq<char>, Json)>,
                        Seq<char>,
                    >(acc.model()),
                    free_of_output_refs(rule.model()) ==> forall|k: int|
                        0 <= k < i ==> store_value((#[trigger] ms[k]).1, out.model()) == Ok::<Json, Seq<char>>(
                            ms[k].1,
                        ),
                decreases es.len() - i,
            {
                proof {
                    assert(decreases_to!(*m => *es));
                    assert(decreases_to!(*es => es@[i as int]));
                    assert(decreases_to!(es@[i as int] => es@[i as int].1));
                    let next = ms.subrange(0, i + 1);
                    assert(next.drop_last() =~= ms.subrange(0, i as int));
                    assert(next.last() == ms[i as int]);
                }
                let v = resolve_nested_store_value(&es[i].1, out);
                proof {
                    if free_of_output_refs(rule.model()) {
                        assert(free_of_output_refs(ms[i as int].1));
                    }
                }
                match v {
                    Ok(v) => {
                        acc.insert(es[i].0.clone(), v);
                    },
                    Err(e) => {
                        proof {
                            lemma_store_members_err(ms, out.model(), i as int);
                        }
                        return Err(e);
                    },
                }
                i = i + 1;
            }
            assert(ms.subrange(0, es.len() as int) =~= ms);
            proof {
                if free_of_output_refs(rule.model()) {
                    lemma_members_unchanged(ms, out.model());
                }
            }
            Ok(JsonValue::Object(acc))
        },
        JsonValue::Array(items) => {
            let ghost vs = values_model(items@);
            proof {
                lemma_values_model(items@);
            }
            let mut acc: Vec<JsonValue> = Vec::new();
            let mut i: usize = 0;
            assert(vs.subrange(0, 0) =~= Seq::<Json>::empty());
            proof {
                lemma_values_model(acc@);
                assert(values_model(acc@) =~= Seq::<Json>::empty());
            }
            while i < items.len()
                invariant
                    i <= items.len(),
                    vs == values_model(items@),
                    store_items(vs.subrange(0, i as int), out.model()) == Ok::<Seq<Json>, Seq<char>>(
                        values_model(acc@),
                    ),
                    free_of_output_refs(rule.model()) ==> forall|k: int|
                        0 <= k < i ==> store_value(#[trigger] vs[k], out.model()) == Ok::<Json, Seq<char>>(vs[k]),
                decreases items.len() - i,
            {
                proof {
                    assert(decreases_to!(*rule => *items));
                    assert(decreases_to!(*items => items@[i as int]));
                    let next = vs.subrange(0, i + 1);
                    assert(next.drop_last() =~= vs.subrange(0, i as int));
                    assert(next.last() == vs[i as int]);
                }
                let v = resolve_nested_store_value(&items[i], out);
                proof {
                    if free_of_output_refs(rule.model()) {
                        assert(free_of_output_refs(vs[i as int]));
                    }
                }
                match v {
                    Ok(v) => {
                        let ghost before = acc@;
                        acc.push(v);
                        proof {
                            lemma_values_model(before);
                            lemma_values_model(acc@);
                            assert(values_model(acc@) =~= values_model(before).push(acc@.last().model()));
                        }
                    },
                    Err(e) => {
                        proof {
                            lemma_store_items_err(vs, out.model(), i as int);
                        }
                        return Err(e);
                    },
                }
                i = i + 1;
            }
            assert(vs.subrange(0, items.len() as int) =~= vs);
            proof {
                if free_of_output_refs(rule.model()) {
                    lemma_items_unchanged(vs, out.model());
                }
            }
            Ok(JsonValue::Array(acc))
        },
        JsonValue::Str(s) => {
            let cs = chars_of(s.as_str());
            if !(has_prefix(&cs, &chars_of("out(")) && has_suffix(&cs, &chars_of(")"))) {
                return Ok(rule.duplicate());
            }
            proof {
                lemma_out_literals();
                reveal_strlit("/");
                if cs@.len() == 4 {
                    assert(cs@.subrange(3, 4)[0] == cs@[3]);
                }
            }
            let inner = slice_chars(&cs, 4, cs.len() - 1);
            let path = if has_prefix(&inner, &chars_of("/")) {
                inner
            } else {
                let mut p = chars_of("/");
                extend_chars(&mut p, &inner);
                p
            };
            assert(path@ == reference_path(s@));
            let ptr = string_of(&path);
            match pointer(out, ptr.as_str()) {
                Some(v) => Ok(v.duplicate()),
                None => {
                    let mut msg = String::new();
                    msg.append("Pointer resolution fault: path '");
                    msg.append(ptr.as_str());
                    msg.append("' not found within contract output schema.");
                    Err(msg)
                },
            }
        },
        _ => Ok(rule.duplicate()),
    }
}

proof fn lemma_store_members_err(ms: Seq<(Seq<char>, Json)>, out: Json, i: int)
    requires
        0 <= i < ms.len(),
        store_members(ms.subrange(0, i), out) is Ok,
        store_value(ms[i].1, out) is Err,
    ensures
        store_members(ms, out) == Err::<Seq<(Seq<char>, Json)>, Seq<char>>(
            store_value(ms[i].1, out)->Err_0,
        ),
    decreases ms.len() - i,
{
    let next = ms.subrange(0, i + 1);
    assert(next.drop_last() =~= ms.subrange(0, i));
    lemma_store_members_err_extend(ms, out, i + 1, store_value(ms[i].1, out)->Err_0);
}

proof fn lemma_store_members_err_extend(
    ms: Seq<(Seq<char>, Json)>,
    out: Json,
    j: int,
    e: Seq<char>,
)
    requires
        0 <= j <= ms.len(),
        store_members(ms.subrange(0, j), out) == Err::<Seq<(Seq<char>, Json)>, Seq<char>>(e),
    ensures
        store_members(ms, out) == Err::<Seq<(Seq<char>, Json)>, Seq<char>>(e),
    decreases ms.len() - j,
{
    if j == ms.len() {
        assert(ms.subrange(0, j) =~= ms);
    } else {
        let next = ms.subrange(0, j + 1);
        assert(next.drop_last() =~= ms.subrange(0, j));
        lemma_store_members_err_extend(ms, out, j + 1, e);
    }
}

proof fn lemma_store_items_err(vs: Seq<Json>, out: Json, i: int)
    requires
        0 <= i < vs.len(),
        store_items(vs.subrange(0, i), out) is Ok,
        store_value(vs[i], out) is Err,
    ensures
        store_items(vs, out) == Err::<Seq<Json>, Seq<char>>(store_value(vs[i], out)->Err_0),
{
    let next = vs.subrange(0, i + 1);
    assert(next.drop_last() =~= vs.subrange(0, i));
    lemma_store_items_err_extend(vs, out, i + 1, store_value(vs[i], out)->Err_0);
}

proof fn lemma_store_items_err_extend(vs: Seq<Json>, out: Json, j: int, e: Seq<char>)
    requires
        0 <= j <= vs.len(),
        store_items(vs.subrange(0, j), out) == Err::<Seq<Json>, Seq<char>>(e),
    ensures
        store_items(vs, out) == Err::<Seq<Json>, Seq<char>>(e),
    decreases vs.len() - j,
{
    if j == vs.len() {
        assert(vs.subrange(0, j) =~= vs);
    } else {
        let next = vs.subrange(0, j + 1);
        assert(next.drop_last() =~= vs.subrange(0, j));
        lemma_store_items_err_extend(vs, out, j + 1, e);
    }
}

/// The store after the mappings are applied in key order, each setting its
/// key to its value, and the first error, if any; the mappings before the
/// failing one stay applied.
pub open spec fn store_after(
    mappings: Seq<(Seq<char>, Json)>,
    out: Json,
    store: Seq<(Seq<char>, Json)>,
) -> (Seq<(Seq<char>, Json)>, Result<(), Seq<char>>)
    decreases mappings.len(),
{
    if mappings.len() == 0 {
        (store, Ok(()))
    } else {
        let (s, r) = store_after(mappings.drop_last(), out, store);
        match r {
            Err(e) => (s, Err(e)),
            Ok(_) => match store_value(mappings.last().1, out) {
                Ok(v) => (entries_insert(s, mappings.last().0, v), Ok(())),
                Err(e) => (s, Err(e)),
            },
        }
    }
}

/// Applies store mappings to the store for contract output `out`.
pub fn apply_store_mappings(mappings: &JsonMap, out: &JsonValue, store: &mut JsonMap) -> (r: Result<
    (),
    String,
>)
    ensures
        final(store).model() == store_after(mappings.model(), out.model(), old(store).model()).0,
        match store_after(mappings.model(), out.model(), old(store).model()).1 {
            Ok(_) => r is Ok,
            Err(e) => r is Err && r->Err_0@ == e,
        },
{
    let es = mappings.entries();
    let ghost ms = mappings.model();
    let ghost start = store.model();
    proof {
        lemma_entries_model(es@);
    }
    let mut i: usize = 0;
    assert(ms.subrange(0, 0) =~= Seq::<(Seq<char>, Json)>::empty());
    while i < es.len()
        invariant
            i <= es.len(),
            ms == entries_model(es@),
            ms == mappings.model(),
            start == old(store).model(),
            store_after(ms.subrange(0, i as int), out.model(), start) == (
                store.model(),
                Ok::<(), Seq<char>>(()),
            ),
        decreases es.len() - i,
    {
        proof {
            let next = ms.subrange(0, i + 1);
            assert(next.drop_last() =~= ms.subrange(0, i as int));
            assert(next.last() == ms[i as int]);
        }
        match resolve_nested_store_value(&es[i].1, out) {
            Ok(v) => {
                store.insert(es[i].0.clone(), v);
            },
            Err(e) => {
                proof {
                    lemma_store_after_err(ms, out.model(), start, i + 1);
                }
                return Err(e);
            },
        }
        i = i + 1;
    }
    assert(ms.subrange(0, es.len() as int) =~= ms);
    Ok(())
}

proof fn lemma_store_after_err(
    ms: Seq<(Seq<char>, Json)>,
    out: Json,
    store: Seq<(Seq<char>, Json)>,
    j: int,
)
    requires
        0 <= j <= ms.len(),
        store_after(ms.subrange(0, j), out, store).1 is Err,
    ensures
        store_after(ms, out, store) == store_after(ms.subrange(0, j), out, store),
    decreases ms.len() - j,
{
    if j == ms.len() {
        assert(ms.subrange(0, j) =~= ms);
    } else {
        let next = ms.subrange(0, j + 1);
        assert(next.drop_last() =~= ms.subrange(0, j));
        lemma_store_after_err(ms, out, store, j + 1);
    }
}

/// When every store mapping succeeds, each mapped key then holds the value
/// that its mapping gives for the output.
pub proof fn law_mapped_keys_hold_their_values(
    mappings: Seq<(Seq<char>, Json)>,
    out: Json,
    store: Seq<(Seq<char>, Json)>,
    key: Seq<char>,
)
    requires
        keys_sorted(mappings),
        store_after(mappings, out, store).1 is Ok,
        entries_get(mappings, key) is Some,
    ensures
        store_value(entries_get(mappings, key)->0, out) is Ok,
        entries_get(store_after(mappings, out, store).0, key) == Some(
            store_value(entries_get(mappings, key)->0, out)->Ok_0,
        ),
    decreases mappings.len(),
{
    lemma_key_order();
    let front = mappings.drop_last();
    let last = mappings.last();
    let rule = entries_get(mappings, key)->0;
    lemma_get_drop_last(mappings, key);
    let (s0, r0) = store_after(front, out, store);
    let v = store_value(last.1, out)->Ok_0;
    law_get_after_insert(s0, last.0, v, key);
    if entries_get(front, key) is Some {
        assert forall|i: int, j: int| 0 <= i < j < front.len() implies key_lt(
            #[trigger] front[i].0,
            #[trigger] front[j].0,
        ) by {
            assert(front[i] == mappings[i]);
            assert(front[j] == mappings[j]);
        }
        law_mapped_keys_hold_their_values(front, out, store, key);
        lemma_get_position(front, key);
        let i = choose|i: int|
            0 <= i < front.len() && #[trigger] front[i].0 == key && front[i].1 == entries_get(
                front,
                key,
            )->0;
        assert(mappings[i] == front[i]);
        assert(key_lt(mappings[i].0, mappings[mappings.len() - 1].0));
        assert(key != last.0);
    }
}

/// The front of sorted members is sorted, and its keys sort before the last.
proof fn lemma_sorted_front(es: Seq<(Seq<char>, Json)>)
    requires
        es.len() > 0,
        keys_sorted(es),
    ensures
        keys_sorted(es.drop_last()),
        forall|j: int| 0 <= j < es.len() - 1 ==> key_lt(#[trigger] es.drop_last()[j].0, es.last().0),
        entries_get(es.drop_last(), es.last().0) is None,
{
    lemma_key_order();
    let front = es.drop_last();
    assert forall|i: int, j: int| 0 <= i < j < front.len() implies key_lt(
        #[trigger] front[i].0,
        #[trigger] front[j].0,
    ) by {
        assert(front[i] == es[i]);
        assert(front[j] == es[j]);
    }
    assert forall|j: int| 0 <= j < es.len() - 1 implies key_lt(#[trigger] front[j].0, es.last().0) by {
        assert(front[j] == es[j]);
    }
    lemma_get_position(front, es.last().0);
    if entries_get(front, es.last().0) is Some {
        let i = choose|i: int|
            0 <= i < front.len() && #[trigger] front[i].0 == es.last().0 && front[i].1 == entries_get(
                front,
                es.last().0,
            )->0;
        assert(key_lt(front[i].0, es.last().0));
    }
}

proof fn lemma_store_members_shape(es: Seq<(Seq<char>, Json)>, out: Json)
    requires
        keys_sorted(es),
    ensures
        store_members(es, out) is Ok <==> forall|i: int|
            0 <= i < es.len() ==> store_value((#[trigger] es[i]).1, out) is Ok,
        store_members(es, out) is Ok ==> forall|k: Seq<char>|
            #[trigger] entries_get(store_members(es, out)->Ok_0, k) == match entries_get(es, k) {
                Some(rule) => Some(store_value(rule, out)->Ok_0),
                None => None,
            },
    decreases es.len(),
{
    if es.len() == 0 {
        assert forall|k: Seq<char>|
            #[trigger] entries_get(store_members(es, out)->Ok_0, k) == match entries_get(es, k) {
                Some(rule) => Some(store_value(rule, out)->Ok_0),
                None => None,
            } by {
            assert(entries_get(Seq::<(Seq<char>, Json)>::empty(), k) is None);
        }
    } else {
        let front = es.drop_last();
        let last = es.last();
        lemma_sorted_front(es);
        lemma_store_members_shape(front, out);
        assert forall|i: int| 0 <= i < front.len() implies front[i] == es[i] by {}
        if forall|i: int| 0 <= i < es.len() ==> store_value((#[trigger] es[i]).1, out) is Ok {
            assert forall|i: int| 0 <= i < front.len() implies store_value(
                (#[trigger] front[i]).1,
                out,
            ) is Ok by {
                assert(front[i] == es[i]);
            }
            assert(store_value(es[es.len() - 1].1, out) is Ok);
        }
        if store_members(es, out) is Ok {
            assert forall|i: int| 0 <= i < es.len() implies store_value((#[trigger] es[i]).1, out) is Ok by {
                if i < es.len() - 1 {
                    assert(front[i] == es[i]);
                }
            }
            let m0 = store_members(front, out)->Ok_0;
            let v = store_value(last.1, out)->Ok_0;
            assert forall|k: Seq<char>|
                #[trigger] entries_get(store_members(es, out)->Ok_0, k) == match entries_get(es, k) {
                    Some(rule) => Some(store_value(rule, out)->Ok_0),
                    None => None,
                } by {
                law_get_after_insert(m0, last.0, v, k);
                lemma_get_drop_last(es, k);
                assert(entries_get(m0, k) == match entries_get(front, k) {
                    Some(rule) => Some(store_value(rule, out)->Ok_0),
                    None => None,
                });
            }
        }
    }
}

proof fn lemma_store_items_shape(items: Seq<Json>, out: Json)
    ensures
        store_items(items, out) is Ok <==> forall|i: int|
            0 <= i < items.len() ==> store_value(#[trigger] items[i], out) is Ok,
        store_items(items, out) is Ok ==> {
            let vs = store_items(items, out)->Ok_0;
            &&& vs.len() == items.len()
            &&& forall|i: int| 0 <= i < items.len() ==> #[trigger] vs[i] == store_value(items[i], out)->Ok_0
        },
    decreases items.len(),
{
    if items.len() > 0 {
        let front = items.drop_last();
        lemma_store_items_shape(front, out);
        if forall|i: int| 0 <= i < items.len() ==> store_value(#[trigger] items[i], out) is Ok {
            assert forall|i: int| 0 <= i < front.len() implies store_value(#[trigger] front[i], out) is Ok by {
                assert(front[i] == items[i]);
            }
            assert(store_value(items[items.len() - 1], out) is Ok);
        }
        if store_items(items, out) is Ok {
            let vs = store_items(items, out)->Ok_0;
            assert forall|i: int| 0 <= i < items.len() implies store_value(#[trigger] items[i], out) is Ok by {
                if i < items.len() - 1 {
                    assert(front[i] == items[i]);
                }
            }
            assert forall|i: int| 0 <= i < items.len() implies #[trigger] vs[i] == store_value(items[i], out)->Ok_0 by {
                if i < items.len() - 1 {
                    assert(front[i] == items[i]);
                }
            }
        }
    }
}

/// A mapping object succeeds exactly when each of its member rules does, and
/// then gives an object with exactly the mapping's keys, each holding the value
/// of its rule; a mapping array succeeds exactly when each element does, and
/// then gives the elements' values in the same order.
pub proof fn law_store_value_keeps_shape(rule: Json, out: Json)
    requires
        rule is Object ==> keys_sorted(rule->Object_0),
    ensures
        match rule {
            Json::Object(es) => {
                &&& store_value(rule, out) is Ok <==> forall|i: int|
                    0 <= i < es.len() ==> store_value((#[trigger] es[i]).1, out) is Ok
                &&& store_value(rule, out) is Ok ==> match store_value(rule, out)->Ok_0 {
                    Json::Object(m) => forall|k: Seq<char>|
                        #[trigger] entries_get(m, k) == match entries_get(es, k) {
                            Some(r) => Some(store_value(r, out)->Ok_0),
                            None => None,
                        },
                    _ => false,
                }
            },
            Json::Array(items) => {
                &&& store_value(rule, out) is Ok <==> forall|i: int|
                    0 <= i < items.len() ==> store_value(#[trigger] items[i], out) is Ok
                &&& store_value(rule, out) is Ok ==> match store_value(rule, out)->Ok_0 {
                    Json::Array(vs) => vs.len() == items.len() && forall|i: int|
                        0 <= i < items.len() ==> #[trigger] vs[i] == store_value(items[i], out)->Ok_0,
                    _ => false,
                }
            },
            _ => true,
        },
{
    match rule {
        Json::Object(es) => lemma_store_members_shape(es, out),
        Json::Array(items) => lemma_store_items_shape(items, out),
        _ => {},
    }
}

/// A mapping in which no string, at any depth, has the form `out(...)`.
pub open spec fn free_of_output_refs(rule: Json) -> bool
    decreases rule,
{
    match rule {
        Json::Str(s) => !is_output_ref(s),
        Json::Array(items) => forall|i: int|
            0 <= i < items.len() ==> {
                proof {
                    assert(decreases_to!(rule => items));
                    assert(decreases_to!(items => items[i]));
                }
                free_of_output_refs(#[trigger] items[i])
            },
        Json::Object(es) => forall|i: int|
            0 <= i < es.len() ==> {
                proof {
                    assert(decreases_to!(rule => es));
                    assert(decreases_to!(es => es[i]));
                    assert(decreases_to!(es[i] => es[i].1));
                }
                free_of_output_refs((#[trigger] es[i]).1)
            },
        _ => true,
    }
}

/// Sorted members whose rules each give themselves give themselves.
proof fn lemma_members_unchanged(es: Seq<(Seq<char>, Json)>, out: Json)
    requires
        keys_sorted(es),
        forall|i: int| 0 <= i < es.len() ==> store_value((#[trigger] es[i]).1, out) == Ok::<Json, Seq<char>>(es[i].1),
    ensures
        store_members(es, out) == Ok::<Seq<(Seq<char>, Json)>, Seq<char>>(es),
    decreases es.len(),
{
    if es.len() > 0 {
        let front = es.drop_last();
        let last = es.last();
        lemma_sorted_front(es);
        assert forall|i: int| 0 <= i < front.len() implies store_value((#[trigger] front[i]).1, out) == Ok::<
            Json,
            Seq<char>,
        >(front[i].1) by {
            assert(front[i] == es[i]);
        }
        lemma_members_unchanged(front, out);
        assert(store_value(es[es.len() - 1].1, out) == Ok::<Json, Seq<char>>(es[es.len() - 1].1));
        lemma_insert_at(front, last.0, last.1, front.len() as int);
        assert(front.take(front.len() as int) + seq![(last.0, last.1)] + front.skip(front.len() as int)
            =~= es);
    } else {
        assert(es =~= Seq::<(Seq<char>, Json)>::empty());
    }
}

/// Elements whose rules each give themselves give themselves.
proof fn lemma_items_unchanged(items: Seq<Json>, out: Json)
    requires
        forall|i: int| 0 <= i < items.len() ==> store_value(#[trigger] items[i], out) == Ok::<Json, Seq<char>>(items[i]),
    ensures
        store_items(items, out) == Ok::<Seq<Json>, Seq<char>>(items),
    decreases items.len(),
{
    if items.len() > 0 {
        let front = items.drop_last();
        assert forall|i: int| 0 <= i < front.len() implies store_value(#[trigger] front[i], out) == Ok::<
            Json,
            Seq<char>,
        >(front[i]) by {
            assert(front[i] == items[i]);
        }
        lemma_items_unchanged(front, out);
        assert(store_value(items[items.len() - 1], out) == Ok::<Json, Seq<char>>(items[items.len() - 1]));
        assert(front.push(items.last()) =~= items);
    } else {
        assert(items =~= Seq::<Json>::empty());
    }
}

/// A native contract together with the rules that feed it and the mappings
/// that store its output.
pub struct ManifestContractWrapper<T> {
    pub inner_contract: T,
    pub input_mappings: JsonMap,
    pub set_store_mappings: Option<JsonMap>,
}

impl<T> ManifestContractWrapper<T> {
    /// The input document for the contract: each input rule evaluated against
    /// the request and the store.
    pub fn input_document(&self, request: &JsonValue, store: &JsonMap) -> (r: JsonValue)
        ensures
            r.model() == Json::Object(
                resolve_all(self.input_mappings.model(), request.model(), store.model()),
            ),
    {
        JsonValue::Object(resolve_mappings(&self.input_mappings, request, store))
    }

    /// Stores the contract's output `out` by the step's mappings; without
    /// mappings the store stays as it is.
    pub fn store_output(&self, out: &JsonValue, store: &mut JsonMap) -> (r: Result<(), String>)
        ensures
            match self.set_store_mappings {
                None => r is Ok && final(store).model() == old(store).model(),
                Some(m) => {
                    &&& final(store).model() == store_after(m.model(), out.model(), old(store).model()).0
                    &&& match store_after(m.model(), out.model(), old(store).model()).1 {
                        Ok(_) => r is Ok,
                        Err(e) => r is Err && r->Err_0@ == e,
                    }
                },
            },
    {
        match &self.set_store_mappings {
            Some(m) => apply_store_mappings(m, out, store),
            None => Ok(()),
        }
    }
}

// ---------------------------------------------------------------------------
// The order of a native step
// ---------------------------------------------------------------------------

/// The stages of a native step: turning the input document into the
/// contract's input, validating it, committing it, storing the output.
#[derive(Debug, PartialEq, Eq, Clone, Copy)]
pub enum WrapperStage {
    Convert,
    Validate,
    Commit,
    Store,
}

/// What a native step does next.
#[derive(Debug, PartialEq, Eq)]
pub enum WrapperAction {
    /// Turn the input document into the contract's input.
    Convert,
    /// Validate the input.
    Validate,
    /// Commit the input.
    Commit,
    /// Store the output by the step's mappings.
    Store,
    /// The step succeeded.
    Done,
    /// The step failed with this message.
    Fail(String),
}

/// The model of a step action.
pub enum WrapperMove {
    Convert,
    Validate,
    Commit,
    Store,
    Done,
    Fail(Seq<char>),
}

impl WrapperAction {
    pub open spec fn model(self) -> WrapperMove {
        match self {
            WrapperAction::Convert => WrapperMove::Convert,
            WrapperAction::Validate => WrapperMove::Validate,
            WrapperAction::Commit => WrapperMove::Commit,
            WrapperAction::Store => WrapperMove::Store,
            WrapperAction::Done => WrapperMove::Done,
            WrapperAction::Fail(m) => WrapperMove::Fail(m@),
        }
    }
}

/// The message for an input document that does not fit the contract's input.
pub open spec fn mismatch_message(e: Seq<char>) -> Seq<char> {
    "Input argument structural mismatch: "@ + e
}

/// The move after `stage` ended with `outcome`, for a step that stores its
/// output (`stores`) or not: each stage leads to the next on success; a
/// failure ends the step with its message (a conversion failure prefixed).
pub open spec fn wrapper_move(stage: WrapperStage, stores: bool, outcome: Result<(), Seq<char>>) -> WrapperMove {
    match outcome {
        Err(e) => WrapperMove::Fail(
            match stage {
                WrapperStage::Convert => mismatch_message(e),
                _ => e,
            },
        ),
        Ok(_) => match stage {
            WrapperStage::Convert => WrapperMove::Validate,
            WrapperStage::Validate => WrapperMove::Commit,
            WrapperStage::Commit => if stores {
                WrapperMove::Store
            } else {
                WrapperMove::Done
            },
            WrapperStage::Store => WrapperMove::Done,
        },
    }
}

/// The first action of a native step.
pub fn wrapper_start() -> (a: WrapperAction)
    ensures
        a.model() == WrapperMove::Convert,
{
    WrapperAction::Convert
}

/// The action after `stage` ended with `outcome`.
pub fn wrapper_next(stage: WrapperStage, stores: bool, outcome: Result<(), String>) -> (a: WrapperAction)
    ensures
        a.model() == wrapper_move(
            stage,
            stores,
            match outcome {
                Ok(_) => Ok(()),
                Err(e) => Err(e@),
            },
        ),
{
    match outcome {
        Err(e) => match stage {
            WrapperStage::Convert => {
                let mut m = String::new();
                m.append("Input argument structural mismatch: ");
                m.append(e.as_str());
                WrapperAction::Fail(m)
            },
            _ => WrapperAction::Fail(e),
        },
        Ok(_) => match stage {
            WrapperStage::Convert => WrapperAction::Validate,
            WrapperStage::Validate => WrapperAction::Commit,
            WrapperStage::Commit => if stores {
                WrapperAction::Store
            } else {
                WrapperAction::Done
            },
            WrapperStage::Store => WrapperAction::Done,
        },
    }
}

/// The stages that a native step runs and how it ends, when stage `i` of
/// convert, validate, commit and store would end with `results[i]`.
pub open spec fn wrapper_run_from(
    stage: WrapperStage,
    stores: bool,
    results: Seq<Result<(), Seq<char>>>,
) -> (Seq<WrapperStage>, WrapperMove)
    decreases 3 - stage_index(stage),
{
    let r = results[stage_index(stage)];
    match wrapper_move(stage, stores, r) {
        WrapperMove::Validate => {
            let (rest, last) = wrapper_run_from(WrapperStage::Validate, stores, results);
            (seq![stage] + rest, last)
        },
        WrapperMove::Commit => {
            let (rest, last) = wrapper_run_from(WrapperStage::Commit, stores, results);
            (seq![stage] + rest, last)
        },
        WrapperMove::Store => {
            let (rest, last) = wrapper_run_from(WrapperStage::Store, stores, results);
            (seq![stage] + rest, last)
        },
        m => (seq![stage], m),
    }
}

/// The position of a stage.
pub open spec fn stage_index(stage: WrapperStage) -> int {
    match stage {
        WrapperStage::Convert => 0,
        WrapperStage::Validate => 1,
        WrapperStage::Commit => 2,
        WrapperStage::Store => 3,
    }
}

/// A native step runs convert, validate, commit and (when it stores its
/// output) store, in that order, each only after the one before succeeded;
/// it stops at the first failure with that stage's message, and succeeds
/// when no stage fails. In particular, a contract commits only input that
/// was converted and validated.
pub proof fn law_step_stages_run_in_order(stores: bool, results: Seq<Result<(), Seq<char>>>)
    requires
        results.len() == 4,
    ensures
        ({
            let (ran, last) = wrapper_run_from(WrapperStage::Convert, stores, results);
            &&& ran.len() >= 1 && ran[0] == WrapperStage::Convert
            &&& ran.contains(WrapperStage::Commit) ==> results[0] is Ok && results[1] is Ok
            &&& ran.contains(WrapperStage::Store) ==> stores && results[2] is Ok
            &&& last == if results[0] is Err {
                WrapperMove::Fail(mismatch_message(results[0]->Err_0))
            } else if results[1] is Err {
                WrapperMove::Fail(results[1]->Err_0)
            } else if results[2] is Err {
                WrapperMove::Fail(results[2]->Err_0)
            } else if stores && results[3] is Err {
                WrapperMove::Fail(results[3]->Err_0)
            } else {
                WrapperMove::Done
            }
            &&& ran == if results[0] is Err {
                seq![WrapperStage::Convert]
            } else if results[1] is Err {
                seq![WrapperStage::Convert, WrapperStage::Validate]
            } else if results[2] is Err || !stores {
                seq![WrapperStage::Convert, WrapperStage::Validate, WrapperStage::Commit]
            } else {
                seq![WrapperStage::Convert, WrapperStage::Validate, WrapperStage::Commit, WrapperStage::Store]
            }
        }),
{
    let s3 = wrapper_run_from(WrapperStage::Store, stores, results);
    let s2 = wrapper_run_from(WrapperStage::Commit, stores, results);
    let s1 = wrapper_run_from(WrapperStage::Validate, stores, results);
    let s0 = wrapper_run_from(WrapperStage::Convert, stores, results);
    assert(s3.0 =~= seq![WrapperStage::Store]);
    if results[2] is Ok && stores {
        assert(s2.0 =~= seq![WrapperStage::Commit] + s3.0);
    } else {
        assert(s2.0 =~= seq![WrapperStage::Commit]);
    }
    if results[1] is Ok {
        assert(s1.0 =~= seq![WrapperStage::Validate] + s2.0);
    } else {
        assert(s1.0 =~= seq![WrapperStage::Validate]);
    }
    if results[0] is Ok {
        assert(s0.0 =~= seq![WrapperStage::Convert] + s1.0);
    } else {
        assert(s0.0 =~= seq![WrapperStage::Convert]);
    }
    let ran = s0.0;
    if ran.contains(WrapperStage::Commit) {
        let i = choose|i: int| 0 <= i < ran.len() && ran[i] == WrapperStage::Commit;
        assert(results[0] is Ok && results[1] is Ok);
    }
    if ran.contains(WrapperStage::Store) {
        let i = choose|i: int| 0 <= i < ran.len() && ran[i] == WrapperStage::Store;
        assert(stores && results[2] is Ok);
    }
}

} // verus!
