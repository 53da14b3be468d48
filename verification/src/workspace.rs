//! How a workspace directory maps onto routes: which files are contract
//! modules, which files define routes and for which HTTP method, and the URL
//! path that a route file's directory stands for.
use vstd::prelude::*;
use crate::fetch::{ascii_upper, is_ascii_text, upper_case, uppercase};
use crate::manifest::RouteDefinition;
use crate::text::{chars_of, replace_all, replace_chars, same_text, string_of};

verus! {

/// The methods for which a route file may define a route.
pub open spec fn is_route_method(m: Seq<char>) -> bool {
    m == "GET"@ || m == "POST"@ || m == "PUT"@ || m == "DELETE"@ || m == "PATCH"@
}

/// A route file is a `.json` file whose name, in upper case, is one of the
/// route methods; the method is that upper-case name.
pub fn route_method(stem: &str, extension: Option<&str>) -> (r: Option<String>)
    ensures
        match extension {
            Some(ext) => if ext@ == "json"@ && is_route_method(upper_case(stem@)) {
                r is Some && r->0@ == upper_case(stem@)
            } else {
                r is None
            },
            None => r is None,
        },
        is_ascii_text(stem@) ==> match extension {
            Some(ext) => if ext@ == "json"@ && is_route_method(ascii_upper(stem@)) {
                r is Some && r->0@ == ascii_upper(stem@)
            } else {
                r is None
            },
            None => r is None,
        },
{
    match extension {
        Some(ext) => {
            if !same_text(ext, "json") {
                return None;
            }
            let m = uppercase(stem);
            let s = m.as_str();
            if same_text(s, "GET") || same_text(s, "POST") || same_text(s, "PUT") || same_text(
                s,
                "DELETE",
            ) || same_text(s, "PATCH") {
                Some(m)
            } else {
                None
            }
        },
        None => None,
    }
}

/// A contract module is a `.wasm` file; its contract takes the file's name.
pub fn wasm_contract_name(stem: Option<&str>, extension: Option<&str>) -> (r: Option<String>)
    ensures
        match (stem, extension) {
            (Some(s), Some(ext)) => if ext@ == "wasm"@ {
                r is Some && r->0@ == s@
            } else {
                r is None
            },
            _ => r is None,
        },
{
    match (stem, extension) {
        (Some(s), Some(ext)) => {
            if same_text(ext, "wasm") {
                let mut n = String::new();
                n.append(s);
                Some(n)
            } else {
                None
            }
        },
        _ => None,
    }
}

/// The URL path for a route file whose directory lies at `relative` under the
/// routes directory: `/` for the routes directory itself, otherwise `/`
/// followed by the relative path with every `\` turned into `/`.
pub open spec fn route_path_of(relative: Seq<char>) -> Seq<char> {
    if relative.len() == 0 {
        "/"@
    } else {
        "/"@ + replace_all(relative, "\\"@, "/"@)
    }
}

/// The URL path of the routes found in directory `relative` (relative to the
/// routes directory).
pub fn determine_route_path(relative: &str) -> (r: String)
    ensures
        r@ == route_path_of(relative@),
{
    let cs = chars_of(relative);
    let mut r = String::new();
    r.append("/");
    if cs.len() == 0 {
        return r;
    }
    let replaced = replace_chars(&cs, &chars_of("\\"), &chars_of("/"));
    let tail = string_of(&replaced);
    r.append(tail.as_str());
    r
}

/// The directory that contains path `p` (`Path::parent`); none for a root or
/// an empty path.
pub uninterp spec fn path_parent(p: Seq<char>) -> Option<Seq<char>>;

/// `Path::parent`, the result as text.
#[verifier::external_body]
fn parent_of(p: &str) -> (r: Option<String>)
    ensures
        match path_parent(p@) {
            Some(d) => r is Some && r->0@ == d,
            None => r is None,
        },
{
    std::path::Path::new(p).parent().map(|d| d.to_string_lossy().into_owned())
}

/// Path `p` relative to `base` (`Path::strip_prefix`, which compares whole
/// components); none when `base` is no prefix of `p`.
pub uninterp spec fn path_relative(p: Seq<char>, base: Seq<char>) -> Option<Seq<char>>;

/// `Path::strip_prefix`, the result as text.
#[verifier::external_body]
fn strip_base(p: &str, base: &str) -> (r: Option<String>)
    ensures
        match path_relative(p@, base@) {
            Some(rel) => r is Some && r->0@ == rel,
            None => r is None,
        },
{
    match std::path::Path::new(p).strip_prefix(base) {
        Ok(rel) => Some(rel.to_string_lossy().into_owned()),
        Err(_) => None,
    }
}

/// The URL path of a route file: the path of its directory (the routes
/// directory when it has none) relative to the routes directory; none when
/// the file lies outside the routes directory.
pub fn route_path_of_file(routes_dir: &str, file: &str) -> (r: Option<String>)
    ensures
        ({
            let dir = match path_parent(file@) {
                Some(d) => d,
                None => routes_dir@,
            };
            match path_relative(dir, routes_dir@) {
                Some(rel) => r is Some && r->0@ == route_path_of(rel),
                None => r is None,
            }
        }),
{
    let dir = match parent_of(file) {
        Some(d) => d,
        None => {
            let mut d = String::new();
            d.append(routes_dir);
            d
        },
    };
    match strip_base(dir.as_str(), routes_dir) {
        Some(rel) => Some(determine_route_path(rel.as_str())),
        None => None,
    }
}

/// A route found in the workspace: its method, its URL path, and its
/// definition (which carries the same method and path).
#[derive(Debug)]
pub struct DiscoveredRoute {
    pub method: String,
    pub path: String,
    pub definition: RouteDefinition,
}

impl DiscoveredRoute {
    /// The route for a definition read from a route file: the definition takes
    /// the method and path that the file's place gives.
    pub fn new(method: String, path: String, definition: RouteDefinition) -> (r: DiscoveredRoute)
        ensures
            r.method@ == method@,
            r.path@ == path@,
            r.definition.method@ == method@,
            r.definition.path@ == path@,
            r.definition.name == definition.name,
            r.definition.contracts == definition.contracts,
            r.definition.output == definition.output,
    {
        let mut definition = definition;
        definition.path = path.clone();
        definition.method = method.clone();
        DiscoveredRoute { method, path, definition }
    }
}

/// The HTTP methods that a route answers.
#[derive(Debug, PartialEq, Eq, Clone, Copy)]
pub enum RouteVerb {
    Get,
    Post,
    Put,
    Delete,
    Patch,
}

/// The method a route answers for its method name: `GET` for any name but
/// `POST`, `PUT`, `DELETE` and `PATCH`.
pub open spec fn route_verb_of(method: Seq<char>) -> RouteVerb {
    if method == "POST"@ {
        RouteVerb::Post
    } else if method == "PUT"@ {
        RouteVerb::Put
    } else if method == "DELETE"@ {
        RouteVerb::Delete
    } else if method == "PATCH"@ {
        RouteVerb::Patch
    } else {
        RouteVerb::Get
    }
}

/// The method that a discovered route answers.
pub fn route_verb(method: &str) -> (r: RouteVerb)
    ensures
        r == route_verb_of(method@),
{
    if same_text(method, "POST") {
        RouteVerb::Post
    } else if same_text(method, "PUT") {
        RouteVerb::Put
    } else if same_text(method, "DELETE") {
        RouteVerb::Delete
    } else if same_text(method, "PATCH") {
        RouteVerb::Patch
    } else {
        RouteVerb::Get
    }
}

} // verus!
