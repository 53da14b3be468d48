//! What a WebAssembly contract step decides around the sandboxed call: the
//! input text handed to the module, the reading of the NUL-terminated reply out
//! of the module's memory, and the store updates taken from the reply.
use vstd::prelude::*;
use crate::json::{
    Json, JsonMap, JsonValue, entries_get, entries_insert, entries_model, keys_sorted,
    law_get_after_insert, lemma_entries_model, lemma_get_drop_last, lemma_get_position,
};
use crate::json::json_of_serde;
use crate::json_text::{json_text, to_json_text};
use crate::manifest_wrapper::lemma_out_literals;
use vstd::utf8::{decode_utf8, valid_utf8};
use crate::resolver::{resolve_all, resolve_mappings};
use crate::text::{key_lt, lemma_key_order, chars_of, ends_with, has_prefix, has_suffix, slice_chars, starts_with, string_of};

verus! {

/// A member of the reply, when the reply is an object (`Value::get` with a key).
pub open spec fn reply_member(reply: Json, key: Seq<char>) -> Option<Json> {
    match reply {
        Json::Object(es) => entries_get(es, key),
        _ => None,
    }
}

/// The value of one extraction expression: `out(name)` is the reply's member
/// `name` (null when there is none); any other value stands for itself.
pub open spec fn extracted(expr: Json, reply: Json) -> Json {
    match expr {
        Json::Str(s) => if starts_with(s, "out("@) && ends_with(s, ")"@) {
            match reply_member(reply, s.subrange(4, s.len() - 1)) {
                Some(v) => v,
                None => Json::Null,
            }
        } else {
            expr
        },
        _ => expr,
    }
}

/// An object of extraction expressions, each field set in key order.
pub open spec fn extracted_fields(fields: Seq<(Seq<char>, Json)>, reply: Json) -> Seq<(Seq<char>, Json)>
    decreases fields.len(),
{
    if fields.len() == 0 {
        Seq::empty()
    } else {
        entries_insert(
            extracted_fields(fields.drop_last(), reply),
            fields.last().0,
            extracted(fields.last().1, reply),
        )
    }
}

/// The value that one store rule takes from the reply: an object rule is
/// resolved field by field, any other rule as one extraction expression.
pub open spec fn wasm_store_value(rule: Json, reply: Json) -> Json {
    match rule {
        Json::Object(fields) => Json::Object(extracted_fields(fields, reply)),
        _ => extracted(rule, reply),
    }
}

/// The store after every rule, in key order, sets its key.
pub open spec fn wasm_store_after(
    rules: Seq<(Seq<char>, Json)>,
    reply: Json,
    store: Seq<(Seq<char>, Json)>,
) -> Seq<(Seq<char>, Json)>
    decreases rules.len(),
{
    if rules.len() == 0 {
        store
    } else {
        entries_insert(
            wasm_store_after(rules.drop_last(), reply, store),
            rules.last().0,
            wasm_store_value(rules.last().1, reply),
        )
    }
}

/// After a module's reply is stored, each key of the store rules holds what
/// its rule takes from the reply.
pub proof fn law_reply_keys_hold_their_values(
    rules: Seq<(Seq<char>, Json)>,
    reply: Json,
    store: Seq<(Seq<char>, Json)>,
    key: Seq<char>,
)
    requires
        keys_sorted(rules),
        entries_get(rules, key) is Some,
    ensures
        entries_get(wasm_store_after(rules, reply, store), key) == Some(
            wasm_store_value(entries_get(rules, key)->0, reply),
        ),
    decreases rules.len(),
{
    lemma_key_order();
    let front = rules.drop_last();
    let last = rules.last();
    lemma_get_drop_last(rules, key);
    let s0 = wasm_store_after(front, reply, store);
    law_get_after_insert(s0, last.0, wasm_store_value(last.1, reply), key);
    if entries_get(front, key) is Some {
        assert forall|i: int, j: int| 0 <= i < j < front.len() implies key_lt(
            #[trigger] front[i].0,
            #[trigger] front[j].0,
        ) by {
            assert(front[i] == rules[i]);
            assert(front[j] == rules[j]);
        }
        law_reply_keys_hold_their_values(front, reply, store, key);
        lemma_get_position(front, key);
        let i = choose|i: int|
            0 <= i < front.len() && #[trigger] front[i].0 == key && front[i].1 == entries_get(
                front,
                key,
            )->0;
        assert(rules[i] == front[i]);
        assert(key_lt(rules[i].0, rules[rules.len() - 1].0));
        assert(key != last.0);
    }
}

fn extract(expr: &JsonValue, reply: &JsonValue) -> (r: JsonValue)
    ensures
        r.model() == extracted(expr.model(), reply.model()),
{
    match expr {
        JsonValue::Str(s) => {
            let cs = chars_of(s.as_str());
            if !(has_prefix(&cs, &chars_of("out(")) && has_suffix(&cs, &chars_of(")"))) {
                return expr.duplicate();
            }
            proof {
                lemma_out_literals();
                if cs@.len() == 4 {
                    assert(cs@.subrange(3, 4)[0] == cs@[3]);
                }
            }
            let name = string_of(&slice_chars(&cs, 4, cs.len() - 1));
            match reply {
                JsonValue::Object(m) => match m.get(name.as_str()) {
                    Some(v) => v.duplicate(),
                    None => JsonValue::Null,
                },
                _ => JsonValue::Null,
            }
        },
        _ => expr.duplicate(),
    }
}

fn store_value_of(rule: &JsonValue, reply: &JsonValue) -> (r: JsonValue)
    ensures
        r.model() == wasm_store_value(rule.model(), reply.model()),
{
    match rule {
        JsonValue::Object(fields) => {
            let es = fields.entries();
            let ghost ms = fields.model();
            proof {
                lemma_entries_model(es@);
            }
            let mut acc = JsonMap::new();
            let mut i: usize = 0;
            assert(ms.subrange(0, 0) =~= Seq::<(Seq<char>, Json)>::empty());
            while i < es.len()
                invariant
                    i <= es.len(),
                    ms == entries_model(es@),
                    ms.len() == es@.len(),
                    forall|k: int|
                        0 <= k < es@.len() ==> #[trigger] ms[k] == (es@[k].0@, es@[k].1.model()),
                    acc.model() == extracted_fields(ms.subrange(0, i as int), reply.model()),
                decreases es.len() - i,
            {
                let v = extract(&es[i].1, reply);
                acc.insert(es[i].0.clone(), v);
                proof {
                    let next = ms.subrange(0, i + 1);
                    assert(next.drop_last() =~= ms.subrange(0, i as int));
                    assert(next.last() == ms[i as int]);
                }
                i = i + 1;
            }
            assert(ms.subrange(0, es.len() as int) =~= ms);
            JsonValue::Object(acc)
        },
        _ => extract(rule, reply),
    }
}

/// The document that `serde_json` parses from `text`, or the message of its
/// parse error.
pub uninterp spec fn parsed_json(text: Seq<char>) -> Result<Json, Seq<char>>;

/// `serde_json::from_str` into a document, handing back the error's message
/// when the text is no JSON.
#[verifier::external_body]
fn parse_json_text(text: &str) -> (r: Result<JsonValue, String>)
    ensures
        match parsed_json(text@) {
            Ok(j) => r is Ok && r->Ok_0.model() == j,
            Err(e) => r is Err && r->Err_0@ == e,
        },
{
    match serde_json::from_str::<serde_json::Value>(text) {
        Ok(v) => Ok(json_of_serde(v)),
        Err(e) => Err(e.to_string()),
    }
}

/// The message for a reply that is no JSON.
pub open spec fn unparsed_reply_message(e: Seq<char>) -> Seq<char> {
    "WASM Pipeline output extraction failed serialization: "@ + e
}

/// The rules of a WebAssembly step: its input rules and its store rules.
pub struct WasmContractRunner {
    pub input_mappings: JsonMap,
    pub set_store_mappings: Option<JsonMap>,
}

impl WasmContractRunner {
    /// The input document: each input rule evaluated against the request and
    /// the store.
    pub fn input_document(&self, request: &JsonValue, store: &JsonMap) -> (r: JsonValue)
        ensures
            r.model() == Json::Object(
                resolve_all(self.input_mappings.model(), request.model(), store.model()),
            ),
    {
        JsonValue::Object(resolve_mappings(&self.input_mappings, request, store))
    }

    /// The text handed to the module: the compact JSON of the input document.
    pub fn input_text(&self, request: &JsonValue, store: &JsonMap) -> (r: String)
        ensures
            r@ == json_text(
                Json::Object(resolve_all(self.input_mappings.model(), request.model(), store.model())),
            ),
    {
        let doc = self.input_document(request, store);
        to_json_text(&doc)
    }

    /// Stores what the store rules take from the module's reply.
    pub fn store_reply(&self, reply: &JsonValue, store: &mut JsonMap)
        ensures
            match self.set_store_mappings {
                None => final(store).model() == old(store).model(),
                Some(m) => final(store).model() == wasm_store_after(
                    m.model(),
                    reply.model(),
                    old(store).model(),
                ),
            },
    {
        match &self.set_store_mappings {
            None => {},
            Some(rules) => {
                let es = rules.entries();
                let ghost ms = rules.model();
                let ghost start = store.model();
                proof {
                    lemma_entries_model(es@);
                }
                let mut i: usize = 0;
                assert(ms.subrange(0, 0) =~= Seq::<(Seq<char>, Json)>::empty());
                while i < es.len()
                    invariant
                        i <= es.len(),
                        ms == entries_model(es@),
                        ms.len() == es@.len(),
                        forall|k: int|
                            0 <= k < es@.len() ==> #[trigger] ms[k] == (
                                es@[k].0@,
                                es@[k].1.model(),
                            ),
                        start == old(store).model(),
                        store.model() == wasm_store_after(ms.subrange(0, i as int), reply.model(), start),
                    decreases es.len() - i,
                {
                    let v = store_value_of(&es[i].1, reply);
                    store.insert(es[i].0.clone(), v);
                    proof {
                        let next = ms.subrange(0, i + 1);
                        assert(next.drop_last() =~= ms.subrange(0, i as int));
                        assert(next.last() == ms[i as int]);
                    }
                    i = i + 1;
                }
                assert(ms.subrange(0, es.len() as int) =~= ms);
            },
        }
    }
}

impl WasmContractRunner {
    /// Takes the module's reply text: parses it as JSON and stores what the
    /// store rules take from it; a reply that is no JSON is an error and leaves
    /// the store as it is.
    pub fn take_reply(&self, reply_text: &str, store: &mut JsonMap) -> (r: Result<(), String>)
        ensures
            match parsed_json(reply_text@) {
                Ok(j) => r is Ok && match self.set_store_mappings {
                    None => final(store).model() == old(store).model(),
                    Some(m) => final(store).model() == wasm_store_after(m.model(), j, old(store).model()),
                },
                Err(e) => r is Err && r->Err_0@ == unparsed_reply_message(e) && final(store).model()
                    == old(store).model(),
            },
    {
        match parse_json_text(reply_text) {
            Ok(reply) => {
                self.store_reply(&reply, store);
                Ok(())
            },
            Err(e) => {
                let mut m = String::new();
                m.append("WASM Pipeline output extraction failed serialization: ");
                m.append(e.as_str());
                Err(m)
            },
        }
    }
}

/// The bytes of the NUL-terminated string that starts at `offset` in
/// `memory`, without the NUL; none when `offset` is outside `memory` or no NUL
/// follows it.
pub open spec fn c_string_bytes(memory: Seq<u8>, offset: int) -> Option<Seq<u8>> {
    if 0 <= offset <= memory.len() && exists|e: int| offset <= e < memory.len() && memory[e] == 0 {
        let e = choose|e: int|
            offset <= e < memory.len() && memory[e] == 0 && forall|k: int|
                offset <= k < e ==> memory[k] != 0;
        Some(memory.subrange(offset, e))
    } else {
        None
    }
}

/// The NUL-terminated string at `offset` in the module's memory (read with
/// bounds checked).
pub fn c_string_at(memory: &[u8], offset: usize) -> (r: Option<Vec<u8>>)
    ensures
        r is Some <==> c_string_bytes(memory@, offset as int) is Some,
        r is Some ==> r->0@ == c_string_bytes(memory@, offset as int)->0,
{
    if offset > memory.len() {
        return None;
    }
    let mut e = offset;
    while e < memory.len() && memory[e] != 0
        invariant
            offset <= e <= memory@.len(),
            forall|k: int| offset <= k < e ==> memory@[k] != 0,
        decreases memory.len() - e,
    {
        e = e + 1;
    }
    if e == memory.len() {
        assert(!exists|x: int| offset <= x < memory@.len() && memory@[x] == 0);
        return None;
    }
    let ghost chosen = choose|x: int|
        offset <= x < memory@.len() && memory@[x] == 0 && forall|k: int|
            offset <= k < x ==> memory@[k] != 0;
    assert(offset <= e < memory@.len() && memory@[e as int] == 0 && forall|k: int|
        offset <= k < e ==> memory@[k] != 0);
    assert(chosen == e) by {
        if chosen < e {
            assert(memory@[chosen] != 0);
        } else if chosen > e {
            assert(memory@[e as int] != 0);
        }
    }
    let mut out: Vec<u8> = Vec::new();
    let mut i = offset;
    while i < e
        invariant
            offset <= i <= e < memory@.len(),
            out@ == memory@.subrange(offset as int, i as int),
        decreases e - i,
    {
        out.push(memory[i]);
        i = i + 1;
        assert(out@ =~= memory@.subrange(offset as int, i as int));
    }
    Some(out)
}

/// `String::from_utf8`: the text that the bytes encode, when they are valid
/// UTF-8.
#[verifier::external_body]
fn utf8_text(bytes: Vec<u8>) -> (r: Option<String>)
    ensures
        r is Some <==> valid_utf8(bytes@),
        r is Some ==> r->0@ == decode_utf8(bytes@),
{
    match String::from_utf8(bytes) {
        Ok(s) => Some(s),
        Err(_) => None,
    }
}

/// The message for a reply offset that no NUL-terminated string follows.
pub open spec fn unterminated_reply_message() -> Seq<char> {
    "WASM output is no NUL-terminated string inside linear memory."@
}

/// The message for a reply that is no UTF-8 text.
pub open spec fn invalid_reply_message() -> Seq<char> {
    "WASM output failed string validation: Invalid UTF-8 sequence encountered."@
}

/// The module's reply: the NUL-terminated string at `offset` in its memory,
/// decoded as UTF-8.
pub fn read_reply(memory: &[u8], offset: usize) -> (r: Result<String, String>)
    ensures
        match c_string_bytes(memory@, offset as int) {
            None => r is Err && r->Err_0@ == unterminated_reply_message(),
            Some(b) => if valid_utf8(b) {
                r is Ok && r->Ok_0@ == decode_utf8(b)
            } else {
                r is Err && r->Err_0@ == invalid_reply_message()
            },
        },
{
    match c_string_at(memory, offset) {
        None => {
            let mut e = String::new();
            e.append("WASM output is no NUL-terminated string inside linear memory.");
            Err(e)
        },
        Some(bytes) => match utf8_text(bytes) {
            Some(t) => Ok(t),
            None => {
                let mut e = String::new();
                e.append("WASM output failed string validation: Invalid UTF-8 sequence encountered.");
                Err(e)
            },
        },
    }
}

} // verus!
