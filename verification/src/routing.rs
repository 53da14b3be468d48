//! The decisions of request routing: which contract a pipeline step builds,
//! how a pipeline advances from step to step, the request document that a
//! pipeline sees and the response that a route gives.
use vstd::prelude::*;
use crate::fetch::{FetchContract, ascii_upper, is_ascii_text, upper_case};
use crate::json::{
    Json, JsonMap, JsonValue, entries_get, entries_insert, keys_sorted, law_get_after_insert,
    lemma_sorted_members_unique, json_of_serde,
};
use crate::manifest::{ContractDefinition, opt_model};
use crate::manifest_wrapper::ManifestContractWrapper;
use crate::resolver::{resolve_all, resolve_mappings};
use crate::text::{decimal, decimal_string, same_text};
use crate::wasm::WasmContractRunner;

verus! {

// ---------------------------------------------------------------------------
// Building steps
// ---------------------------------------------------------------------------

/// A step, built from its definition.
pub enum BuiltContract {
    /// A step that runs the WebAssembly module of the same name.
    Wasm(WasmContractRunner),
    /// A step that fetches over HTTP.
    Fetch(ManifestContractWrapper<FetchContract>),
}

/// The contract ids that name a native HTTP fetch.
pub open spec fn is_native_fetch(id: Seq<char>) -> bool {
    id == "GET"@ || id == "POST"@ || id == "PUT"@ || id == "DELETE"@
}

/// Some compiled module bears the name `id`.
pub open spec fn names_contain(names: Seq<String>, id: Seq<char>) -> bool {
    exists|i: int| 0 <= i < names.len() && #[trigger] names[i]@ == id
}

/// The message for a contract id that nothing implements.
pub open spec fn unregistered_message(id: Seq<char>) -> Seq<char> {
    "Initialization Error: Spec definition module '"@ + id
        + "' is not registered in this runtime host environment."@
}

/// The ids `GET`, `POST`, `PUT` and `DELETE` name native fetches, and each
/// is its own upper-case form, so the fetch built for it sends with that very
/// method.
pub proof fn law_method_ids_build_fetches(id: Seq<char>)
    requires
        id == "GET"@ || id == "POST"@ || id == "PUT"@ || id == "DELETE"@,
    ensures
        is_native_fetch(id),
        is_ascii_text(id),
        ascii_upper(id) == id,
{
    reveal_strlit("GET");
    reveal_strlit("POST");
    reveal_strlit("PUT");
    reveal_strlit("DELETE");
    assert forall|i: int| 0 <= i < id.len() implies (#[trigger] id[i] as u32) < 128 && !(97 <= (
    id[i] as u32) <= 122) by {
        if id == "GET"@ {
            assert(id =~= seq!['G', 'E', 'T']);
        } else if id == "POST"@ {
            assert(id =~= seq!['P', 'O', 'S', 'T']);
        } else if id == "PUT"@ {
            assert(id =~= seq!['P', 'U', 'T']);
        } else {
            assert(id =~= seq!['D', 'E', 'L', 'E', 'T', 'E']);
        }
    }
    assert(ascii_upper(id) =~= id);
}

fn contains_name(names: &Vec<String>, id: &String) -> (r: bool)
    ensures
        r == names_contain(names@, id@),
{
    let mut i: usize = 0;
    while i < names.len()
        invariant
            i <= names.len(),
            forall|k: int| 0 <= k < i ==> names@[k]@ != id@,
        decreases names.len() - i,
    {
        if same_text(names[i].as_str(), id.as_str()) {
            return true;
        }
        i = i + 1;
    }
    false
}

/// Builds the step that `def` describes: the WebAssembly module of that name
/// when one was compiled, else a native fetch for the ids `GET`, `POST`, `PUT`
/// and `DELETE`; any other id is an error.
pub fn build_contract_from_definition(def: &ContractDefinition, compiled_contracts: &Vec<String>) -> (r:
    Result<BuiltContract, String>)
    ensures
        names_contain(compiled_contracts@, def.id@) ==> match r {
            Ok(BuiltContract::Wasm(w)) => w.input_mappings.model() == def.inputs.model() && opt_model(
                w.set_store_mappings,
            ) == opt_model(def.set_store_mappings),
            _ => false,
        },
        !names_contain(compiled_contracts@, def.id@) && is_native_fetch(def.id@) ==> match r {
            Ok(BuiltContract::Fetch(f)) => f.inner_contract.method_name() == upper_case(def.id@)
                && f.input_mappings.model() == def.inputs.model() && opt_model(f.set_store_mappings)
                == opt_model(def.set_store_mappings),
            _ => false,
        },
        !names_contain(compiled_contracts@, def.id@) && (def.id@ == "GET"@ || def.id@ == "POST"@
            || def.id@ == "PUT"@ || def.id@ == "DELETE"@) ==> match r {
            Ok(BuiltContract::Fetch(f)) => f.inner_contract.method_name() == def.id@,
            _ => false,
        },
        !names_contain(compiled_contracts@, def.id@) && !is_native_fetch(def.id@) ==> match r {
            Err(e) => e@ == unregistered_message(def.id@),
            _ => false,
        },
{
    let mappings = match &def.set_store_mappings {
        Some(m) => Some(m.duplicate()),
        None => None,
    };
    if contains_name(compiled_contracts, &def.id) {
        return Ok(
            BuiltContract::Wasm(
                WasmContractRunner { input_mappings: def.inputs.duplicate(), set_store_mappings: mappings },
            ),
        );
    }
    let id = def.id.as_str();
    if same_text(id, "GET") || same_text(id, "POST") || same_text(id, "PUT") || same_text(id, "DELETE") {
        proof {
            law_method_ids_build_fetches(id@);
        }
        let contract = FetchContract::new(id);
        Ok(
            BuiltContract::Fetch(
                ManifestContractWrapper {
                    inner_contract: contract,
                    input_mappings: def.inputs.duplicate(),
                    set_store_mappings: mappings,
                },
            ),
        )
    } else {
        let mut e = String::new();
        e.append("Initialization Error: Spec definition module '");
        e.append(id);
        e.append("' is not registered in this runtime host environment.");
        Err(e)
    }
}

// ---------------------------------------------------------------------------
// Running a pipeline
// ---------------------------------------------------------------------------

/// What a pipeline does next.
#[derive(Debug, PartialEq, Eq)]
pub enum PipelineAction {
    /// Run the step at this position.
    Run(usize),
    /// Every step succeeded.
    Done,
    /// A step failed; the pipeline stops with this message.
    Fail(String),
}

/// The model of a pipeline action.
pub enum PipelineMove {
    Run(nat),
    Done,
    Fail(Seq<char>),
}

impl PipelineAction {
    pub open spec fn model(self) -> PipelineMove {
        match self {
            PipelineAction::Run(i) => PipelineMove::Run(i as nat),
            PipelineAction::Done => PipelineMove::Done,
            PipelineAction::Fail(m) => PipelineMove::Fail(m@),
        }
    }
}

/// The message of a pipeline stopped by step `index`.
pub open spec fn interrupted_message(index: nat, err: Seq<char>) -> Seq<char> {
    "Pipeline interrupted at step "@ + decimal(index) + ": "@ + err
}

/// The first move of a pipeline of `steps` steps.
pub open spec fn first_move(steps: nat) -> PipelineMove {
    if steps == 0 {
        PipelineMove::Done
    } else {
        PipelineMove::Run(0)
    }
}

/// The move after step `index` of `steps` ended with `result`.
pub open spec fn next_move(steps: nat, index: nat, result: Result<(), Seq<char>>) -> PipelineMove {
    match result {
        Err(e) => PipelineMove::Fail(interrupted_message(index, e)),
        Ok(_) => if index + 1 < steps {
            PipelineMove::Run(index + 1)
        } else {
            PipelineMove::Done
        },
    }
}

/// The first action of a pipeline of `steps` steps.
pub fn pipeline_start(steps: usize) -> (a: PipelineAction)
    ensures
        a.model() == first_move(steps as nat),
{
    if steps == 0 {
        PipelineAction::Done
    } else {
        PipelineAction::Run(0)
    }
}

/// The action after step `index` of `steps` ended with `result`.
pub fn pipeline_next(steps: usize, index: usize, result: Result<(), String>) -> (a: PipelineAction)
    requires
        index < steps,
    ensures
        a.model() == next_move(
            steps as nat,
            index as nat,
            match result {
                Ok(_) => Ok(()),
                Err(e) => Err(e@),
            },
        ),
{
    match result {
        Err(e) => {
            let mut m = String::new();
            m.append("Pipeline interrupted at step ");
            let n = decimal_string(index);
            m.append(n.as_str());
            m.append(": ");
            m.append(e.as_str());
            PipelineAction::Fail(m)
        },
        Ok(_) => if index + 1 < steps {
            PipelineAction::Run(index + 1)
        } else {
            PipelineAction::Done
        },
    }
}

/// Where a pipeline ends when step `i` is run next and the steps' results are
/// `results`: the positions of the steps it runs, and its last move.
pub open spec fn drive_from(steps: nat, results: Seq<Result<(), Seq<char>>>, i: nat) -> (
    Seq<nat>,
    PipelineMove,
)
    decreases steps - i,
{
    if i >= steps {
        (Seq::empty(), PipelineMove::Done)
    } else {
        match next_move(steps, i, results[i as int]) {
            PipelineMove::Run(j) => if j == i + 1 {
                let (rest, last) = drive_from(steps, results, j);
                (seq![i].add(rest), last)
            } else {
                (seq![i], PipelineMove::Run(j))
            },
            m => (seq![i], m),
        }
    }
}

/// The steps that a pipeline runs and its outcome, from its first move on.
pub open spec fn drive(steps: nat, results: Seq<Result<(), Seq<char>>>) -> (Seq<nat>, PipelineMove) {
    match first_move(steps) {
        PipelineMove::Run(_) => drive_from(steps, results, 0),
        m => (Seq::empty(), m),
    }
}

/// The first failing step at or after `i`, with its error.
pub open spec fn first_failure(results: Seq<Result<(), Seq<char>>>, i: nat) -> Option<(nat, Seq<char>)>
    decreases results.len() - i,
{
    if i >= results.len() {
        None
    } else {
        match results[i as int] {
            Err(e) => Some((i, e)),
            Ok(_) => first_failure(results, i + 1),
        }
    }
}

/// The positions `i`, `i + 1`, ..., `j - 1`.
pub open spec fn positions(i: nat, j: nat) -> Seq<nat>
    decreases j - i,
{
    if i >= j {
        Seq::empty()
    } else {
        seq![i].add(positions(i + 1, j))
    }
}

proof fn lemma_drive_from(steps: nat, results: Seq<Result<(), Seq<char>>>, i: nat)
    requires
        results.len() == steps,
        i <= steps,
    ensures
        drive_from(steps, results, i) == match first_failure(results, i) {
            Some((k, e)) => (positions(i, k + 1), PipelineMove::Fail(interrupted_message(k, e))),
            None => (positions(i, steps), PipelineMove::Done),
        },
    decreases steps - i,
{
    if i < steps {
        lemma_drive_from(steps, results, i + 1);
        match results[i as int] {
            Err(e) => {
                assert(positions(i + 1, i + 1) =~= Seq::<nat>::empty());
                assert(positions(i, i + 1) =~= seq![i]);
            },
            Ok(_) => {
                if i + 1 >= steps {
                    assert(positions(i + 1, steps) =~= Seq::<nat>::empty());
                    assert(positions(i, steps) =~= seq![i]);
                }
            },
        }
    }
}

/// A pipeline runs its steps in order from the first, stops at the first step
/// that fails and then reports that step's position and error; when no step
/// fails it runs them all and succeeds.
pub proof fn law_pipeline_runs_in_order_until_first_failure(
    steps: nat,
    results: Seq<Result<(), Seq<char>>>,
)
    requires
        results.len() == steps,
    ensures
        drive(steps, results) == match first_failure(results, 0) {
            Some((k, e)) => (positions(0, k + 1), PipelineMove::Fail(interrupted_message(k, e))),
            None => (positions(0, steps), PipelineMove::Done),
        },
{
    lemma_drive_from(steps, results, 0);
    if steps == 0 {
        assert(positions(0, 0) =~= Seq::<nat>::empty());
    }
}

// ---------------------------------------------------------------------------
// The request document and the response
// ---------------------------------------------------------------------------

/// The object of string members that name-value pairs give, set in order (a
/// later pair wins over an earlier one of the same name).
pub open spec fn pairs_object(ps: Seq<(Seq<char>, Seq<char>)>) -> Seq<(Seq<char>, Json)>
    decreases ps.len(),
{
    if ps.len() == 0 {
        Seq::empty()
    } else {
        entries_insert(pairs_object(ps.drop_last()), ps.last().0, Json::Str(ps.last().1))
    }
}

pub open spec fn pairs_model(ps: Seq<(String, String)>) -> Seq<(Seq<char>, Seq<char>)> {
    Seq::new(ps.len(), |i: int| (ps[i].0@, ps[i].1@))
}

/// Sorted members that hold exactly the entries of `m`, each value as a JSON
/// string.
pub open spec fn holds_text_map(es: Seq<(Seq<char>, Json)>, m: Map<Seq<char>, Seq<char>>) -> bool {
    &&& keys_sorted(es)
    &&& forall|k: Seq<char>|
        #[trigger] entries_get(es, k) == if m.dom().contains(k) {
            Some(Json::Str(m[k]))
        } else {
            None
        }
}

/// The object of string members that holds the entries of `m`, in key order.
pub open spec fn text_object(m: Map<Seq<char>, Seq<char>>) -> Seq<(Seq<char>, Json)> {
    choose|es: Seq<(Seq<char>, Json)>| holds_text_map(es, m)
}

/// The parameters that a URL query string decodes to (as `application/x-www-form-urlencoded`,
/// a later repeat of a name winning); none when the string does not decode.
pub uninterp spec fn query_params(q: Seq<char>) -> Option<Map<Seq<char>, Seq<char>>>;

/// Decodes a query string into its name-value pairs
/// (`actix_web::web::Query::<HashMap<String, String>>::from_query`), handing the
/// map's entries out in the map's own order.
#[verifier::external_body]
fn decode_query(q: &str) -> (r: Option<Vec<(String, String)>>)
    ensures
        match query_params(q@) {
            None => r is None,
            Some(m) => r is Some && {
                let ps = r->0@;
                &&& m.dom().finite()
                &&& ps.len() == m.len()
                &&& forall|i: int, j: int|
                    0 <= i < j < ps.len() ==> (#[trigger] ps[i]).0@ != (#[trigger] ps[j]).0@
                &&& forall|i: int|
                    0 <= i < ps.len() ==> m.dom().contains((#[trigger] ps[i]).0@) && m[ps[i].0@]
                        == ps[i].1@
                &&& forall|k: Seq<char>|
                    #[trigger] m.dom().contains(k) ==> exists|i: int| 0 <= i < ps.len() && ps[i].0@ == k
            },
        },
{
    match actix_web::web::Query::<std::collections::HashMap<String, String>>::from_query(q) {
        Ok(m) => Some(m.into_inner().into_iter().collect()),
        Err(_) => None,
    }
}

/// The request document that a pipeline sees: the members of the body when
/// the body is a JSON object (none otherwise), then `path` set to the route's
/// path parameters and, when the query string decodes, `query` set to its
/// parameters.
pub open spec fn request_model(
    body: Option<Json>,
    path_params: Seq<(Seq<char>, Seq<char>)>,
    query: Option<Map<Seq<char>, Seq<char>>>,
) -> Json {
    let base = match body {
        Some(Json::Object(m)) => m,
        _ => Seq::empty(),
    };
    let with_path = entries_insert(base, "path"@, Json::Object(pairs_object(path_params)));
    Json::Object(
        match query {
            Some(q) => entries_insert(with_path, "query"@, Json::Object(text_object(q))),
            None => with_path,
        },
    )
}

/// A pipeline reads the route's path parameters under `path` and, when the
/// query string decodes, its parameters under `query`, whatever the body holds.
pub proof fn law_request_carries_parameters(
    body: Option<Json>,
    path_params: Seq<(Seq<char>, Seq<char>)>,
    query: Option<Map<Seq<char>, Seq<char>>>,
)
    ensures
        match request_model(body, path_params, query) {
            Json::Object(m) => {
                &&& entries_get(m, "path"@) == Some(Json::Object(pairs_object(path_params)))
                &&& match query {
                    Some(q) => entries_get(m, "query"@) == Some(Json::Object(text_object(q))),
                    None => entries_get(m, "query"@) == match body {
                        Some(Json::Object(b)) => entries_get(b, "query"@),
                        _ => None,
                    },
                }
            },
            _ => false,
        },
{
    reveal_strlit("path");
    reveal_strlit("query");
    assert("path"@ != "query"@) by {
        assert("path"@.len() != "query"@.len());
    }
    let base = match body {
        Some(Json::Object(m)) => m,
        _ => Seq::empty(),
    };
    let with_path = entries_insert(base, "path"@, Json::Object(pairs_object(path_params)));
    law_get_after_insert(base, "path"@, Json::Object(pairs_object(path_params)), "path"@);
    law_get_after_insert(base, "path"@, Json::Object(pairs_object(path_params)), "query"@);
    match query {
        Some(q) => {
            law_get_after_insert(with_path, "query"@, Json::Object(text_object(q)), "path"@);
            law_get_after_insert(with_path, "query"@, Json::Object(text_object(q)), "query"@);
        },
        None => {},
    }
}

/// With distinct names, each name of the pairs reads its value and no other
/// name reads anything.
proof fn lemma_pairs_object_get(ps: Seq<(Seq<char>, Seq<char>)>, k: Seq<char>)
    requires
        forall|i: int, j: int| 0 <= i < j < ps.len() ==> (#[trigger] ps[i]).0 != (#[trigger] ps[j]).0,
    ensures
        forall|i: int| 0 <= i < ps.len() && (#[trigger] ps[i]).0 == k ==> entries_get(pairs_object(ps), k)
            == Some(Json::Str(ps[i].1)),
        (forall|i: int| 0 <= i < ps.len() ==> (#[trigger] ps[i]).0 != k) ==> entries_get(
            pairs_object(ps),
            k,
        ) is None,
    decreases ps.len(),
{
    if ps.len() > 0 {
        let front = ps.drop_last();
        let last = ps.last();
        assert forall|i: int, j: int| 0 <= i < j < front.len() implies (#[trigger] front[i]).0 != (
        #[trigger] front[j]).0 by {
            assert(front[i] == ps[i]);
            assert(front[j] == ps[j]);
        }
        lemma_pairs_object_get(front, k);
        law_get_after_insert(pairs_object(front), last.0, Json::Str(last.1), k);
        assert forall|i: int| 0 <= i < ps.len() && (#[trigger] ps[i]).0 == k implies entries_get(
            pairs_object(ps),
            k,
        ) == Some(Json::Str(ps[i].1)) by {
            if i < ps.len() - 1 {
                assert(front[i] == ps[i]);
                assert(ps[i].0 != ps[ps.len() - 1].0);
            }
        }
        if forall|i: int| 0 <= i < ps.len() ==> (#[trigger] ps[i]).0 != k {
            assert forall|i: int| 0 <= i < front.len() implies (#[trigger] front[i]).0 != k by {
                assert(front[i] == ps[i]);
            }
            assert(ps[ps.len() - 1].0 != k);
        }
    }
}

fn object_of_pairs(ps: &Vec<(String, String)>) -> (r: JsonMap)
    ensures
        r.model() == pairs_object(pairs_model(ps@)),
        keys_sorted(r.model()),
{
    let ghost pm = pairs_model(ps@);
    let mut m = JsonMap::new();
    let mut i: usize = 0;
    assert(pm.subrange(0, 0) =~= Seq::<(Seq<char>, Seq<char>)>::empty());
    while i < ps.len()
        invariant
            i <= ps.len(),
            pm == pairs_model(ps@),
            m.model() == pairs_object(pm.subrange(0, i as int)),
            keys_sorted(m.model()),
        decreases ps.len() - i,
    {
        m.insert(ps[i].0.clone(), JsonValue::Str(ps[i].1.clone()));
        proof {
            let next = pm.subrange(0, i + 1);
            assert(next.drop_last() =~= pm.subrange(0, i as int));
            assert(next.last() == (ps@[i as int].0@, ps@[i as int].1@));
        }
        i = i + 1;
    }
    assert(pm.subrange(0, ps.len() as int) =~= pm);
    m
}

/// The object of the query parameters, when the query string decodes.
fn query_object(query_string: &str) -> (r: Option<JsonMap>)
    ensures
        match query_params(query_string@) {
            None => r is None,
            Some(q) => r is Some && r->0.model() == text_object(q),
        },
{
    match decode_query(query_string) {
        None => None,
        Some(ps) => {
            let qm = object_of_pairs(&ps);
            proof {
                let q = query_params(query_string@)->0;
                let pm = pairs_model(ps@);
                assert forall|i: int, j: int| 0 <= i < j < pm.len() implies (#[trigger] pm[i]).0
                    != (#[trigger] pm[j]).0 by {
                    assert(ps@[i].0@ != ps@[j].0@);
                }
                assert forall|k: Seq<char>|
                    #[trigger] entries_get(qm.model(), k) == if q.dom().contains(k) {
                        Some(Json::Str(q[k]))
                    } else {
                        None
                    } by {
                    lemma_pairs_object_get(pm, k);
                    if q.dom().contains(k) {
                        let i = choose|i: int| 0 <= i < ps@.len() && ps@[i].0@ == k;
                        assert(pm[i].0 == k);
                    } else {
                        assert forall|i: int| 0 <= i < pm.len() implies (#[trigger] pm[i]).0 != k by {
                            assert(q.dom().contains(ps@[i].0@));
                        }
                    }
                }
                assert(holds_text_map(qm.model(), q));
                let t = text_object(q);
                assert(holds_text_map(t, q));
                assert forall|k: Seq<char>| entries_get(qm.model(), k) == entries_get(t, k) by {
                    assert(entries_get(qm.model(), k) == if q.dom().contains(k) {
                        Some(Json::Str(q[k]))
                    } else {
                        None
                    });
                    assert(entries_get(t, k) == if q.dom().contains(k) {
                        Some(Json::Str(q[k]))
                    } else {
                        None
                    });
                }
                lemma_sorted_members_unique(qm.model(), t);
            }
            Some(qm)
        },
    }
}

/// Builds the request document from the parsed body (none when the body is
/// no JSON), the route's path parameters and the raw query string.
pub fn request_document(body: Option<JsonValue>, path_params: &Vec<(String, String)>, query_string: &str) -> (r:
    JsonValue)
    ensures
        r.model() == request_model(
            match body {
                Some(b) => Some(b.model()),
                None => None,
            },
            pairs_model(path_params@),
            query_params(query_string@),
        ),
{
    let mut m = match body {
        Some(JsonValue::Object(m)) => m,
        _ => JsonMap::new(),
    };
    let mut path_key = String::new();
    path_key.append("path");
    m.insert(path_key, JsonValue::Object(object_of_pairs(path_params)));
    match query_object(query_string) {
        Some(q) => {
            let mut query_key = String::new();
            query_key.append("query");
            m.insert(query_key, JsonValue::Object(q));
        },
        None => {},
    }
    JsonValue::Object(m)
}

/// The document that `serde_json` parses from `bytes`, when they are JSON.
pub uninterp spec fn json_document(bytes: Seq<u8>) -> Option<Json>;

/// `serde_json::from_slice` into a document; none when the bytes are no JSON.
#[verifier::external_body]
fn parse_json_bytes(bytes: &[u8]) -> (r: Option<JsonValue>)
    ensures
        match json_document(bytes@) {
            Some(j) => r is Some && r->0.model() == j,
            None => r is None,
        },
{
    match serde_json::from_slice::<serde_json::Value>(bytes) {
        Ok(v) => Some(json_of_serde(v)),
        Err(_) => None,
    }
}

/// Builds the request document from the raw body (its members count when it
/// parses to a JSON object), the route's path parameters and the raw query
/// string.
pub fn request_document_from_body(body: &[u8], path_params: &Vec<(String, String)>, query_string: &str) -> (r:
    JsonValue)
    ensures
        r.model() == request_model(json_document(body@), pairs_model(path_params@), query_params(query_string@)),
{
    let parsed = parse_json_bytes(body);
    request_document(parsed, path_params, query_string)
}

/// How a route answers.
#[derive(Debug)]
pub enum RouteResponse {
    /// The pipeline failed: a server error with this text.
    Fault(String),
    /// The pipeline succeeded: this JSON document.
    Success(JsonValue),
}

/// The route's answer: on failure the text `Pipeline Fault: ` and the error;
/// on success the object of the output rules' values.
pub fn route_response(
    outcome: Result<(), String>,
    output_mapping: &JsonMap,
    request: &JsonValue,
    store: &JsonMap,
) -> (r: RouteResponse)
    ensures
        match outcome {
            Err(e) => match r {
                RouteResponse::Fault(t) => t@ == "Pipeline Fault: "@ + e@,
                _ => false,
            },
            Ok(_) => match r {
                RouteResponse::Success(v) => v.model() == Json::Object(
                    resolve_all(output_mapping.model(), request.model(), store.model()),
                ),
                _ => false,
            },
        },
{
    match outcome {
        Err(e) => {
            let mut t = String::new();
            t.append("Pipeline Fault: ");
            t.append(e.as_str());
            RouteResponse::Fault(t)
        },
        Ok(_) => RouteResponse::Success(
            JsonValue::Object(resolve_mappings(output_mapping, request, store)),
        ),
    }
}

} // verus!
