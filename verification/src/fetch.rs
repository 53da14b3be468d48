//! The HTTP fetch contract: the three shapes its input may take, the check of
//! its target URL, and the request that it sends.
use vstd::prelude::*;
use crate::json::{Json, JsonMap, JsonValue, entries_insert};
use crate::text::{chars_of, decimal, decimal_string, same_text};

verus! {

/// The options of one target in the nested form.
#[derive(Debug)]
pub struct FetchOptions {
    pub headers: Option<Vec<(String, String)>>,
    pub body: Option<JsonValue>,
}

/// The flat form: a URL with optional headers and body.
#[derive(Debug)]
pub struct ExplicitFetchParams {
    pub url: String,
    pub headers: Option<Vec<(String, String)>>,
    pub body: Option<JsonValue>,
}

/// What a `json` member holds: a bare URL, or targets with their options (in
/// the order in which the map of targets hands them out).
#[derive(Debug)]
pub enum JsonPayload {
    Shorthand(String),
    Complex(Vec<(String, FetchOptions)>),
}

/// The nested form: `{ "json": ... }`.
#[derive(Debug)]
pub struct JsonFormatWrapper {
    pub json: JsonPayload,
}

/// The input of a fetch.
#[derive(Debug)]
pub enum FetchInput {
    Nested(JsonFormatWrapper),
    Explicit(ExplicitFetchParams),
}

/// What a fetch produces: the response status and its JSON body (null when
/// the body is no JSON).
#[derive(Debug)]
pub struct FetchOutput {
    pub status: u16,
    pub body: JsonValue,
}

/// A fetch contract for one HTTP method.
#[derive(Debug)]
pub struct FetchContract {
    method: String,
}

/// The HTTP methods that a fetch sends.
#[derive(Debug, PartialEq, Eq, Clone, Copy)]
pub enum HttpVerb {
    Get,
    Post,
    Put,
    Delete,
}

/// The request that a fetch sends.
#[derive(Debug)]
pub struct FetchPlan {
    pub verb: HttpVerb,
    pub url: String,
    pub headers: Option<Vec<(String, String)>>,
    /// The JSON body, for `POST` and `PUT`.
    pub json_body: Option<JsonValue>,
}

/// The upper-case form of a string (`str::to_uppercase`).
pub uninterp spec fn upper_case(s: Seq<char>) -> Seq<char>;

/// Every character is ASCII.
pub open spec fn is_ascii_text(s: Seq<char>) -> bool {
    forall|i: int| 0 <= i < s.len() ==> (#[trigger] s[i] as u32) < 128
}

/// An ASCII lower-case letter becomes its capital; every other character
/// stays as it is.
pub open spec fn ascii_upper_char(c: char) -> char {
    if 97 <= (c as u32) <= 122 {
        ((c as u32) - 32) as char
    } else {
        c
    }
}

/// The string with each ASCII lower-case letter made a capital.
pub open spec fn ascii_upper(s: Seq<char>) -> Seq<char> {
    Seq::new(s.len(), |i: int| ascii_upper_char(s[i]))
}

/// `str::to_uppercase`: the string in upper case, as Unicode defines it. On
/// ASCII text that is the capital of each lower-case letter, every other
/// character having no upper-case mapping and so staying as it is.
#[verifier::external_body]
fn to_upper(s: &str) -> (r: String)
    ensures
        r@ == upper_case(s@),
        is_ascii_text(s@) ==> r@ == ascii_upper(s@),
{
    s.to_uppercase()
}

/// The upper-case form of `s`.
pub fn uppercase(s: &str) -> (r: String)
    ensures
        r@ == upper_case(s@),
        is_ascii_text(s@) ==> r@ == ascii_upper(s@),
{
    to_upper(s)
}

/// Method names ignore case: the upper-case form of an ASCII name is ASCII
/// and is its own upper-case form, so a contract built for a name and one
/// built for the name's upper-case form send with the same method.
pub proof fn law_method_case_is_ignored(m: Seq<char>)
    requires
        is_ascii_text(m),
    ensures
        is_ascii_text(ascii_upper(m)),
        ascii_upper(ascii_upper(m)) == ascii_upper(m),
        verb_of(ascii_upper(ascii_upper(m))) == verb_of(ascii_upper(m)),
{
    let u = ascii_upper(m);
    assert forall|i: int| 0 <= i < u.len() implies (#[trigger] u[i] as u32) < 128 by {
        assert(u[i] == ascii_upper_char(m[i]));
        assert((m[i] as u32) < 128);
    }
    assert forall|i: int| 0 <= i < u.len() implies ascii_upper(u)[i] == u[i] by {
        assert(u[i] == ascii_upper_char(m[i]));
        let c = m[i];
        if 97 <= (c as u32) <= 122 {
            assert((((c as u32) - 32) as char) as u32 == (c as u32) - 32);
        }
    }
    assert(ascii_upper(u) =~= u);
}

/// Whether `s` is an absolute URL that the URL standard accepts.
pub uninterp spec fn url_parses(s: Seq<char>) -> bool;

/// `reqwest::Url::parse` (the `url` crate's parser): whether it accepts `s`.
#[verifier::external_body]
fn parses_as_url(s: &str) -> (r: bool)
    ensures
        r == url_parses(s@),
{
    reqwest::Url::parse(s).is_ok()
}

/// The URL that a fetch input targets: the bare URL, the first target of the
/// nested form, or the flat form's URL; none when the nested form has no
/// targets.
pub open spec fn target_url(input: FetchInput) -> Option<Seq<char>> {
    match input {
        FetchInput::Nested(w) => match w.json {
            JsonPayload::Shorthand(u) => Some(u@),
            JsonPayload::Complex(targets) => if targets@.len() == 0 {
                None
            } else {
                Some(targets@[0].0@)
            },
        },
        FetchInput::Explicit(p) => Some(p.url@),
    }
}

/// The verdict on a fetch input.
pub open spec fn fetch_check(input: FetchInput) -> Result<(), Seq<char>> {
    match target_url(input) {
        None => Err("Fetch execution block missing nested target URL key."@),
        Some(u) => if url_parses(u) {
            Ok(())
        } else {
            Err("Invalid destination URL target: '"@ + u + "'"@)
        },
    }
}

/// The verb that a method name selects: `GET` for any name but `POST`, `PUT`
/// and `DELETE`.
pub open spec fn verb_of(method: Seq<char>) -> HttpVerb {
    if method == "POST"@ {
        HttpVerb::Post
    } else if method == "PUT"@ {
        HttpVerb::Put
    } else if method == "DELETE"@ {
        HttpVerb::Delete
    } else {
        HttpVerb::Get
    }
}

pub open spec fn opt_json(v: Option<JsonValue>) -> Option<Json> {
    match v {
        Some(x) => Some(x.model()),
        None => None,
    }
}

pub open spec fn opt_pairs(h: Option<Vec<(String, String)>>) -> Option<Seq<(Seq<char>, Seq<char>)>> {
    match h {
        Some(v) => Some(Seq::new(v@.len(), |i: int| (v@[i].0@, v@[i].1@))),
        None => None,
    }
}

/// The (url, headers, body) that a fetch input carries; for the nested form
/// those of its first target.
pub open spec fn fetch_parts(input: FetchInput) -> Option<
    (Seq<char>, Option<Seq<(Seq<char>, Seq<char>)>>, Option<Json>),
> {
    match input {
        FetchInput::Nested(w) => match w.json {
            JsonPayload::Shorthand(u) => Some((u@, None, None)),
            JsonPayload::Complex(targets) => if targets@.len() == 0 {
                None
            } else {
                Some(
                    (
                        targets@[0].0@,
                        opt_pairs(targets@[0].1.headers),
                        opt_json(targets@[0].1.body),
                    ),
                )
            },
        },
        FetchInput::Explicit(p) => Some((p.url@, opt_pairs(p.headers), opt_json(p.body))),
    }
}

/// The model of a request plan.
pub open spec fn plan_model(p: FetchPlan) -> (
    HttpVerb,
    Seq<char>,
    Option<Seq<(Seq<char>, Seq<char>)>>,
    Option<Json>,
) {
    (p.verb, p.url@, opt_pairs(p.headers), opt_json(p.json_body))
}

/// The request for a fetch input: `POST` and `PUT` send the body as JSON (null
/// when there is none); `DELETE` and `GET` send none.
pub open spec fn fetch_request(method: Seq<char>, input: FetchInput) -> Result<
    (HttpVerb, Seq<char>, Option<Seq<(Seq<char>, Seq<char>)>>, Option<Json>),
    Seq<char>,
> {
    match fetch_parts(input) {
        None => Err("Fetch execution block missing configuration target payload."@),
        Some((url, headers, body)) => {
            let verb = verb_of(method);
            let payload = if verb == HttpVerb::Post || verb == HttpVerb::Put {
                Some(
                    match body {
                        Some(b) => b,
                        None => Json::Null,
                    },
                )
            } else {
                None
            };
            Ok((verb, url, headers, payload))
        },
    }
}

/// The planned request targets the input's URL and carries exactly the
/// input's headers: the flat form's own, the first target's in the nested
/// form, none for a bare URL. Only `POST` and `PUT` send a body: the input's
/// body, or null when it has none.
pub proof fn law_plan_carries_input(method: Seq<char>, input: FetchInput)
    ensures
        ({
            let body_sent = |b: Option<JsonValue>|
                if method == "POST"@ || method == "PUT"@ {
                    Some(
                        match opt_json(b) {
                            Some(j) => j,
                            None => Json::Null,
                        },
                    )
                } else {
                    None
                };
            match input {
                FetchInput::Explicit(p) => fetch_request(method, input) == Ok::<
                    (HttpVerb, Seq<char>, Option<Seq<(Seq<char>, Seq<char>)>>, Option<Json>),
                    Seq<char>,
                >((verb_of(method), p.url@, opt_pairs(p.headers), body_sent(p.body))),
                FetchInput::Nested(w) => match w.json {
                    JsonPayload::Shorthand(u) => fetch_request(method, input) == Ok::<
                        (HttpVerb, Seq<char>, Option<Seq<(Seq<char>, Seq<char>)>>, Option<Json>),
                        Seq<char>,
                    >((verb_of(method), u@, None, body_sent(None))),
                    JsonPayload::Complex(ts) => if ts@.len() > 0 {
                        fetch_request(method, input) == Ok::<
                            (HttpVerb, Seq<char>, Option<Seq<(Seq<char>, Seq<char>)>>, Option<Json>),
                            Seq<char>,
                        >(
                            (
                                verb_of(method),
                                ts@[0].0@,
                                opt_pairs(ts@[0].1.headers),
                                body_sent(ts@[0].1.body),
                            ),
                        )
                    } else {
                        fetch_request(method, input) is Err
                    },
                },
            }
        }),
        verb_of(method) == if method == "POST"@ {
            HttpVerb::Post
        } else if method == "PUT"@ {
            HttpVerb::Put
        } else if method == "DELETE"@ {
            HttpVerb::Delete
        } else {
            HttpVerb::Get
        },
{
    reveal_strlit("POST");
    reveal_strlit("PUT");
    assert("POST"@ != "PUT"@) by {
        assert("POST"@.len() != "PUT"@.len());
    }
}

impl FetchContract {
    /// The method name, in upper case, that this contract sends with.
    pub closed spec fn method_name(self) -> Seq<char> {
        self.method@
    }

    /// A fetch contract for `method`, whatever its case.
    pub fn new(method: &str) -> (r: FetchContract)
        ensures
            r.method_name() == upper_case(method@),
            is_ascii_text(method@) ==> r.method_name() == ascii_upper(method@),
    {
        FetchContract { method: uppercase(method) }
    }

    /// Checks that the input names a target and that its URL parses.
    pub fn validate(&self, input: &FetchInput) -> (r: Result<(), String>)
        ensures
            match fetch_check(*input) {
                Ok(_) => r is Ok,
                Err(e) => r is Err && r->Err_0@ == e,
            },
    {
        let url: &String = match input {
            FetchInput::Nested(w) => match &w.json {
                JsonPayload::Shorthand(u) => u,
                JsonPayload::Complex(targets) => {
                    if targets.len() == 0 {
                        let mut e = String::new();
                        e.append("Fetch execution block missing nested target URL key.");
                        return Err(e);
                    }
                    &targets[0].0
                },
            },
            FetchInput::Explicit(p) => &p.url,
        };
        if !parses_as_url(url.as_str()) {
            let mut e = String::new();
            e.append("Invalid destination URL target: '");
            e.append(url.as_str());
            e.append("'");
            return Err(e);
        }
        Ok(())
    }

    /// The request that this contract sends for `input`.
    pub fn request_plan(&self, input: FetchInput) -> (r: Result<FetchPlan, String>)
        ensures
            match fetch_request(self.method_name(), input) {
                Ok(p) => r is Ok && plan_model(r->Ok_0) == p,
                Err(e) => r is Err && r->Err_0@ == e,
            },
    {
        let ghost whole = input;
        let (url, headers, body) = match input {
            FetchInput::Nested(w) => match w.json {
                JsonPayload::Shorthand(u) => (u, None, None),
                JsonPayload::Complex(targets) => {
                    let mut targets = targets;
                    if targets.len() == 0 {
                        let mut e = String::new();
                        e.append("Fetch execution block missing configuration target payload.");
                        return Err(e);
                    }
                    let (u, options) = targets.remove(0);
                    (u, options.headers, options.body)
                },
            },
            FetchInput::Explicit(p) => (p.url, p.headers, p.body),
        };
        assert(fetch_parts(whole) == Some((url@, opt_pairs(headers), opt_json(body))));
        let verb = if same_text(self.method.as_str(), "POST") {
            HttpVerb::Post
        } else if same_text(self.method.as_str(), "PUT") {
            HttpVerb::Put
        } else if same_text(self.method.as_str(), "DELETE") {
            HttpVerb::Delete
        } else {
            HttpVerb::Get
        };
        let json_body = match verb {
            HttpVerb::Post | HttpVerb::Put => Some(
                match body {
                    Some(b) => b,
                    None => JsonValue::Null,
                },
            ),
            _ => None,
        };
        Ok(FetchPlan { verb, url, headers, json_body })
    }
}

/// The document that a fetch output stands for: `{"body": ..., "status": n}`.
pub open spec fn fetch_output_model(status: u16, body: Json) -> Json {
    Json::Object(
        entries_insert(
            entries_insert(Seq::empty(), "status"@, Json::Number(decimal(status as nat))),
            "body"@,
            body,
        ),
    )
}

impl FetchOutput {
    /// The output as a JSON document (what serializing it gives).
    pub fn to_json(self) -> (r: JsonValue)
        ensures
            r.model() == fetch_output_model(self.status, self.body.model()),
    {
        let mut m = JsonMap::new();
        let mut status_key = String::new();
        status_key.append("status");
        let mut body_key = String::new();
        body_key.append("body");
        m.insert(status_key, JsonValue::Number(decimal_string(self.status as usize)));
        m.insert(body_key, self.body);
        JsonValue::Object(m)
    }
}

} // verus!
