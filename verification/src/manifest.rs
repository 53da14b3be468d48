//! The manifest: routes, and for each route the pipeline steps (contract
//! invocations with their input rules and store mappings) and the output
//! rules.
use vstd::prelude::*;
use crate::json::{Json, JsonMap, JsonValue, entries_get, entries_remove, entries_model, lemma_entries_model, lemma_remove_gone};

verus! {

/// One pipeline step: the contract to invoke, the rules for its input
/// fields, and the mappings (`->`) that copy its output into the store.
#[derive(Debug)]
pub struct ContractDefinition {
    pub id: String,
    pub inputs: JsonMap,
    pub set_store_mappings: Option<JsonMap>,
}

/// Why a step block does not describe a step.
#[derive(Debug, PartialEq, Eq)]
pub enum StepBlockError {
    /// No key names a contract.
    MissingContract,
    /// The contract's key holds something other than an object.
    PayloadNotObject { id: String },
}

/// The message of each error.
pub open spec fn step_block_error_message(e: StepBlockError) -> Seq<char> {
    match e {
        StepBlockError::MissingContract => "Pipeline step layout must declare a target contract invocation."@,
        StepBlockError::PayloadNotObject { id } => "Expected object configuration payload for contract key '"@
            + id@ + "'"@,
    }
}

impl StepBlockError {
    /// The message that the error displays.
    pub fn message(&self) -> (r: String)
        ensures
            r@ == step_block_error_message(*self),
    {
        let mut r = String::new();
        match self {
            StepBlockError::MissingContract => {
                r.append("Pipeline step layout must declare a target contract invocation.");
            },
            StepBlockError::PayloadNotObject { id } => {
                r.append("Expected object configuration payload for contract key '");
                r.append(id.as_str());
                r.append("'");
            },
        }
        r
    }
}

/// The store mappings that a `->` member holds, when it is an object.
pub open spec fn arrow_object(v: Option<Json>) -> Option<Seq<(Seq<char>, Json)>> {
    match v {
        Some(Json::Object(m)) => Some(m),
        _ => None,
    }
}

/// The step that a step block describes, as (contract id, input rules, store
/// mappings). A `->` member beside the contract's key gives the store mappings
/// (when it is an object; it is dropped either way). The contract is the first
/// remaining key in key order; the other keys are ignored. When no object
/// came from beside it, a `->` member inside the contract's payload is taken
/// out of the inputs and, when it is an object, gives the store mappings.
pub open spec fn step_block(raw: Seq<(Seq<char>, Json)>) -> Result<
    (Seq<char>, Seq<(Seq<char>, Json)>, Option<Seq<(Seq<char>, Json)>>),
    StepFault,
> {
    let beside = arrow_object(entries_get(raw, "->"@));
    let rest = entries_remove(raw, "->"@);
    if rest.len() == 0 {
        Err(StepFault::MissingContract)
    } else {
        let id = rest[0].0;
        match rest[0].1 {
            Json::Object(inner) => if beside is Some {
                Ok((id, inner, beside))
            } else {
                Ok((id, entries_remove(inner, "->"@), arrow_object(entries_get(inner, "->"@))))
            },
            _ => Err(StepFault::PayloadNotObject(id)),
        }
    }
}

/// The model of a step block error.
pub enum StepFault {
    MissingContract,
    PayloadNotObject(Seq<char>),
}

impl StepBlockError {
    pub open spec fn fault(self) -> StepFault {
        match self {
            StepBlockError::MissingContract => StepFault::MissingContract,
            StepBlockError::PayloadNotObject { id } => StepFault::PayloadNotObject(id@),
        }
    }
}

pub open spec fn opt_model(m: Option<JsonMap>) -> Option<Seq<(Seq<char>, Json)>> {
    match m {
        Some(x) => Some(x.model()),
        None => None,
    }
}

impl ContractDefinition {
    /// The step that a step block (the object that stands for one step in a
    /// route's pipeline) describes.
    pub fn from_step_block(raw: JsonMap) -> (r: Result<ContractDefinition, StepBlockError>)
        ensures
            match step_block(raw.model()) {
                Ok((id, inputs, mappings)) => match r {
                    Ok(d) => d.id@ == id && d.inputs.model() == inputs && opt_model(
                        d.set_store_mappings,
                    ) == mappings,
                    Err(_) => false,
                },
                Err(f) => match r {
                    Ok(_) => false,
                    Err(e) => e.fault() == f,
                },
            },
    {
        let mut raw = raw;
        let beside = raw.remove("->");
        let mut set = match beside {
            Some(JsonValue::Object(m)) => Some(m),
            _ => None,
        };
        let mut es = raw.into_entries();
        proof {
            lemma_entries_model(es@);
        }
        if es.len() == 0 {
            return Err(StepBlockError::MissingContract);
        }
        let (id, val) = es.remove(0);
        match val {
            JsonValue::Object(inner) => {
                let mut inner = inner;
                if set.is_none() {
                    let inside = inner.remove("->");
                    set = match inside {
                        Some(JsonValue::Object(m)) => Some(m),
                        _ => None,
                    };
                }
                Ok(ContractDefinition { id, inputs: inner, set_store_mappings: set })
            },
            _ => Err(StepBlockError::PayloadNotObject { id }),
        }
    }
}

/// One route of the manifest: its pipeline steps and the rules that build the
/// response from the request and the store.
#[derive(Debug)]
pub struct RouteDefinition {
    pub name: String,
    pub path: String,
    pub method: String,
    pub contracts: Vec<ContractDefinition>,
    pub output: JsonMap,
}

/// The whole manifest of a server.
#[derive(Debug)]
pub struct ServerManifest {
    pub server_name: String,
    pub version: String,
    pub routes: Vec<RouteDefinition>,
}

/// The arrow `->` never names the contract of a step: it is kept for the
/// store mappings.
pub proof fn law_arrow_is_never_a_contract(raw: Seq<(Seq<char>, Json)>)
    ensures
        step_block(raw) is Ok ==> step_block(raw)->Ok_0.0 != "->"@,
{
    lemma_remove_gone(raw, "->"@);
}

} // verus!
