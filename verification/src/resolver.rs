//! The value language of manifests: a rule value is either a literal, or a
//! `ctx(path)` reference into the request document or, under `/store/`, into
//! the pipeline store; text templates embed such references as
//! `{{ ctx(path) }}`.
use vstd::prelude::*;
use crate::json::{
    Json, JsonMap, JsonValue, entries_get, entries_insert, entries_model, lemma_entries_model,
    law_get_after_insert,
};
use crate::pointer::{pointer_step, pointer_walk, unescape_token};
use crate::json_text::{json_text, to_json_text};
use crate::pointer::{pointer, pointer_get};
use crate::text::{
    chars_of, ends_with, extend_chars, has_prefix, has_suffix, lemma_replace_absent,
    lemma_split_append, replace_all, replace_chars, slice_chars, split_on, starts_with, string_of,
};

verus! {

/// The regular expression that finds `{{ ctx(path) }}` tokens, spaces allowed
/// inside the braces; group 1 is the path.
pub const CTX_TOKEN_PATTERN: &'static str = "\\{\\{\\s*ctx\\(([^)]+)\\)\\s*\\}\\}";

/// A rule value of the form `ctx(...)`.
pub open spec fn is_context_ref(s: Seq<char>) -> bool {
    starts_with(s, "ctx("@) && ends_with(s, ")"@)
}

/// The pointer that a `ctx(...)` or `out(...)` reference names: the text
/// between the brackets, with a `/` put in front when it has none.
pub open spec fn reference_path(s: Seq<char>) -> Seq<char> {
    let inner = s.subrange(4, s.len() - 1);
    if starts_with(inner, "/"@) {
        inner
    } else {
        "/"@ + inner
    }
}

/// What a context pointer finds: under `/store/` a member path inside the
/// store (the leading `/store` taken off), elsewhere a path inside the request
/// document.
pub open spec fn context_lookup(path: Seq<char>, request: Json, store: Seq<(Seq<char>, Json)>) -> Option<Json> {
    if starts_with(path, "/store/"@) {
        pointer_get(Json::Object(store), path.skip(6))
    } else {
        pointer_get(request, path)
    }
}

/// The value of a manifest rule: a `ctx(...)` reference is replaced by what it
/// names (null when it names nothing); any other value stands for itself.
pub open spec fn resolve_value(rule: Json, request: Json, store: Seq<(Seq<char>, Json)>) -> Json {
    match rule {
        Json::Str(s) => if is_context_ref(s) {
            match context_lookup(reference_path(s), request, store) {
                Some(v) => v,
                None => Json::Null,
            }
        } else {
            rule
        },
        _ => rule,
    }
}

proof fn lemma_literals()
    ensures
        "ctx("@ == seq!['c', 't', 'x', '('],
        ")"@ == seq![')'],
        "/"@ == seq!['/'],
        "/store/"@ == seq!['/', 's', 't', 'o', 'r', 'e', '/'],
{
    reveal_strlit("ctx(");
    reveal_strlit(")");
    reveal_strlit("/");
    reveal_strlit("/store/");
    assert("ctx("@ =~= seq!['c', 't', 'x', '(']);
    assert(")"@ =~= seq![')']);
    assert("/"@ =~= seq!['/']);
    assert("/store/"@ =~= seq!['/', 's', 't', 'o', 'r', 'e', '/']);
}

/// Evaluates a manifest rule value against the request document and the
/// pipeline store.
pub fn resolve_manifest_value(rule: &JsonValue, request: &JsonValue, store: &JsonMap) -> (r: JsonValue)
    ensures
        r.model() == resolve_value(rule.model(), request.model(), store.model()),
{
    match rule {
        JsonValue::Str(s) => {
            let cs = chars_of(s.as_str());
            if !(has_prefix(&cs, &chars_of("ctx(")) && has_suffix(&cs, &chars_of(")"))) {
                return rule.duplicate();
            }
            proof {
                lemma_literals();
                if cs@.len() == 4 {
                    assert(cs@.subrange(3, 4)[0] == cs@[3]);
                }
            }
            let inner = slice_chars(&cs, 4, cs.len() - 1);
            let path = if has_prefix(&inner, &chars_of("/")) {
                inner
            } else {
                let mut p = chars_of("/");
                extend_chars(&mut p, &inner);
                p
            };
            assert(path@ == reference_path(s@));
            let found = if has_prefix(&path, &chars_of("/store/")) {
                let whole = JsonValue::Object(store.duplicate());
                let rest = string_of(&slice_chars(&path, 6, path.len()));
                assert(rest@ =~= path@.skip(6));
                match pointer(&whole, rest.as_str()) {
                    Some(v) => v.duplicate(),
                    None => JsonValue::Null,
                }
            } else {
                let p = string_of(&path);
                match pointer(request, p.as_str()) {
                    Some(v) => v.duplicate(),
                    None => JsonValue::Null,
                }
            };
            found
        },
        _ => rule.duplicate(),
    }
}

/// The object that a set of rules describes: each member takes the value of
/// its rule, the members set one after the other in key order.
pub open spec fn resolve_all(
    rules: Seq<(Seq<char>, Json)>,
    request: Json,
    store: Seq<(Seq<char>, Json)>,
) -> Seq<(Seq<char>, Json)>
    decreases rules.len(),
{
    if rules.len() == 0 {
        Seq::empty()
    } else {
        entries_insert(
            resolve_all(rules.drop_last(), request, store),
            rules.last().0,
            resolve_value(rules.last().1, request, store),
        )
    }
}

/// Evaluates every rule of `rules`, giving the object of their values.
pub fn resolve_mappings(rules: &JsonMap, request: &JsonValue, store: &JsonMap) -> (r: JsonMap)
    ensures
        r.model() == resolve_all(rules.model(), request.model(), store.model()),
{
    let es = rules.entries();
    let ghost ms = rules.model();
    proof {
        lemma_entries_model(es@);
    }
    let mut out = JsonMap::new();
    let mut i: usize = 0;
    assert(ms.subrange(0, 0) =~= Seq::<(Seq<char>, Json)>::empty());
    while i < es.len()
        invariant
            i <= es.len(),
            ms == entries_model(es@),
            ms.len() == es@.len(),
            forall|k: int| 0 <= k < es@.len() ==> #[trigger] ms[k] == (es@[k].0@, es@[k].1.model()),
            out.model() == resolve_all(ms.subrange(0, i as int), request.model(), store.model()),
        decreases es.len() - i,
    {
        let v = resolve_manifest_value(&es[i].1, request, store);
        out.insert(es[i].0.clone(), v);
        proof {
            let next = ms.subrange(0, i + 1);
            assert(next.drop_last() =~= ms.subrange(0, i as int));
            assert(next.last() == ms[i as int]);
        }
        i = i + 1;
    }
    assert(ms.subrange(0, es.len() as int) =~= ms);
    out
}

/// What a step stores is what a later `ctx(/store/<key>)` reference reads:
/// after member `key` of the store is set to `v`, the rule
/// `ctx(/store/<key>)` evaluates to `v`, whatever the request, for any key
/// without `/` or `~` (which a pointer would split or unescape).
pub proof fn law_store_read_back(request: Json, store: Seq<(Seq<char>, Json)>, key: Seq<char>, v: Json)
    requires
        forall|i: int| 0 <= i < key.len() ==> key[i] != '/' && key[i] != '~',
    ensures
        resolve_value(
            Json::Str("ctx(/store/"@ + key + ")"@),
            request,
            entries_insert(store, key, v),
        ) == v,
{
    reveal_strlit("ctx(/store/");
    reveal_strlit("~1");
    reveal_strlit("~0");
    lemma_literals();
    let s = "ctx(/store/"@ + key + ")"@;
    let st = entries_insert(store, key, v);
    assert(s.subrange(0, 4) =~= "ctx("@);
    assert(s.subrange(s.len() - 1, s.len() as int) =~= ")"@);
    assert(is_context_ref(s));
    let inner = s.subrange(4, s.len() - 1);
    assert(inner =~= "/store/"@ + key);
    assert(inner.subrange(0, 1) =~= "/"@);
    assert(reference_path(s) == inner);
    assert(inner.subrange(0, 7) =~= "/store/"@);
    let ptr = inner.skip(6);
    assert(ptr =~= seq!['/'] + key);
    lemma_split_append(seq!['/'], key, '/');
    let e = Seq::<char>::empty();
    assert(seq!['/'].drop_last() =~= e);
    assert(split_on(e, '/') =~= seq![e]);
    assert(split_on(seq!['/'], '/') =~= seq![e, e]);
    assert(split_on(ptr, '/') =~= seq![e, key]);
    assert(split_on(ptr, '/').drop_first() =~= seq![key]);
    lemma_replace_absent(key, "~1"@, "/"@);
    lemma_replace_absent(key, "~0"@, "~"@);
    assert(unescape_token(key) == key);
    law_get_after_insert(store, key, v, key);
    assert(pointer_step(Json::Object(st), key) == Some(v));
    assert(seq![key].drop_first() =~= Seq::<Seq<char>>::empty());
    assert(pointer_walk(v, Seq::<Seq<char>>::empty()) == Some(v));
    assert(seq![key][0] == key);
    assert(pointer_walk(Json::Object(st), seq![key]) == Some(v));
}

// ---------------------------------------------------------------------------
// Text templates
// ---------------------------------------------------------------------------

/// All matches of regular expression `pattern` in `text`, left to right and
/// without overlap: each is the matched text and the text of group 1 when that
/// group took part; nothing when `pattern` is not a valid expression.
pub uninterp spec fn regex_matches(pattern: Seq<char>, text: Seq<char>) -> Option<
    Seq<(Seq<char>, Option<Seq<char>>)>,
>;

/// A character that `\s` matches: Unicode `White_Space`.
pub open spec fn is_regex_space(c: char) -> bool {
    let n = c as u32;
    ||| 9 <= n <= 13
    ||| n == 32
    ||| n == 0x85
    ||| n == 0xA0
    ||| n == 0x1680
    ||| 0x2000 <= n <= 0x200A
    ||| n == 0x2028
    ||| n == 0x2029
    ||| n == 0x202F
    ||| n == 0x205F
    ||| n == 0x3000
}

/// Every character is one that `\s` matches.
pub open spec fn all_regex_space(s: Seq<char>) -> bool {
    forall|i: int| 0 <= i < s.len() ==> is_regex_space(#[trigger] s[i])
}

/// `t` is a `{{ ctx(path) }}` token whose path is `path`: what a match of
/// `CTX_TOKEN_PATTERN` is, with `path` its group 1.
pub open spec fn is_ctx_token(t: Seq<char>, path: Seq<char>) -> bool {
    &&& path.len() > 0
    &&& forall|i: int| 0 <= i < path.len() ==> #[trigger] path[i] != ')'
    &&& exists|a: Seq<char>, b: Seq<char>|
        all_regex_space(a) && all_regex_space(b) && t == seq!['{', '{'] + a + seq!['c', 't', 'x', '(']
            + path + seq![')'] + b + seq!['}', '}']
}

/// `t` occurs in `text`.
pub open spec fn occurs_in(text: Seq<char>, t: Seq<char>) -> bool {
    exists|p: int| 0 <= p && p + t.len() <= text.len() && #[trigger] text.subrange(p, p + t.len()) == t
}

/// Some part of `text` is a `{{ ctx(path) }}` token.
pub open spec fn contains_ctx_token(text: Seq<char>) -> bool {
    exists|p: int, q: int, path: Seq<char>|
        0 <= p <= q <= text.len() && #[trigger] is_ctx_token(text.subrange(p, q), path)
}

/// The matches of `pattern` in `text` (`Regex::new`, then `captures_iter`).
/// Each match is a part of `text`; for the token pattern, each is a token
/// with its path as group 1, as the pattern's syntax prescribes.
#[verifier::external_body]
fn find_matches(pattern: &str, text: &str) -> (r: Option<Vec<(String, Option<String>)>>)
    ensures
        match regex_matches(pattern@, text@) {
            Some(ms) => r is Some && r->0@.len() == ms.len() && forall|i: int|
                0 <= i < ms.len() ==> (#[trigger] r->0@[i]).0@ == ms[i].0 && match ms[i].1 {
                    Some(g) => r->0@[i].1 is Some && r->0@[i].1->0@ == g,
                    None => r->0@[i].1 is None,
                },
            None => r is None,
        },
        r is Some ==> forall|i: int|
            0 <= i < r->0@.len() ==> occurs_in(text@, (#[trigger] r->0@[i]).0@),
        r is Some && pattern@ == CTX_TOKEN_PATTERN@ ==> forall|i: int|
            0 <= i < r->0@.len() ==> (#[trigger] r->0@[i]).1 is Some && is_ctx_token(
                r->0@[i].0@,
                r->0@[i].1->0@,
            ),
{
    match regex::Regex::new(pattern) {
        Ok(re) => Some(
            re.captures_iter(text).map(
                |c| (c[0].to_string(), c.get(1).map(|g| g.as_str().to_string())),
            ).collect(),
        ),
        Err(_) => None,
    }
}

/// The text that replaces a token: a string as it is, nothing for null, the
/// compact JSON text of anything else.
pub open spec fn replacement_text(v: Json) -> Seq<char> {
    match v {
        Json::Str(s) => s,
        Json::Null => Seq::empty(),
        _ => json_text(v),
    }
}

/// What a token is replaced by, by the kind of value it names: a string's
/// own text, nothing only for null, `true` or `false` for a boolean, a
/// number's text, and the compact JSON text of an array or object.
pub proof fn law_token_replacement_text(v: Json)
    ensures
        match v {
            Json::Str(s) => replacement_text(v) == s,
            Json::Null => replacement_text(v) == Seq::<char>::empty(),
            Json::Bool(b) => replacement_text(v) == if b {
                "true"@
            } else {
                "false"@
            },
            Json::Number(t) => replacement_text(v) == t,
            _ => replacement_text(v) == json_text(v) && replacement_text(v).len() >= 2,
        },
{
    reveal_strlit("true");
    reveal_strlit("false");
    assert("true"@ =~= seq!['t', 'r', 'u', 'e']);
    assert("false"@ =~= seq!['f', 'a', 'l', 's', 'e']);
}

/// The (token, path) pairs of the matches whose group 1 took part, in order.
pub open spec fn token_pairs(ms: Seq<(Seq<char>, Option<Seq<char>>)>) -> Seq<(Seq<char>, Seq<char>)>
    decreases ms.len(),
{
    if ms.len() == 0 {
        Seq::empty()
    } else {
        let rest = token_pairs(ms.drop_last());
        match ms.last().1 {
            Some(g) => rest.push((ms.last().0, g)),
            None => rest,
        }
    }
}

/// `text` after each token, in turn, is replaced everywhere by the value of
/// `ctx(path)`.
pub open spec fn interpolate_pairs(
    text: Seq<char>,
    pairs: Seq<(Seq<char>, Seq<char>)>,
    request: Json,
    store: Seq<(Seq<char>, Json)>,
) -> Seq<char>
    decreases pairs.len(),
{
    if pairs.len() == 0 {
        text
    } else {
        let v = resolve_value(Json::Str("ctx("@ + pairs[0].1 + ")"@), request, store);
        interpolate_pairs(
            replace_all(text, pairs[0].0, replacement_text(v)),
            pairs.drop_first(),
            request,
            store,
        )
    }
}

/// The filled-in template for the regular-expression matches `matches` found
/// in it.
pub fn interpolate_matches(
    template: &str,
    matches: &Vec<(String, Option<String>)>,
    request: &JsonValue,
    store: &JsonMap,
) -> (r: String)
    ensures
        r@ == interpolate_pairs(
            template@,
            token_pairs(
                Seq::new(
                    matches@.len(),
                    |i: int|
                        (
                            matches@[i].0@,
                            match matches@[i].1 {
                                Some(g) => Some(g@),
                                None => None,
                            },
                        ),
                ),
            ),
            request.model(),
            store.model(),
        ),
{
    let ghost ms = Seq::new(
        matches@.len(),
        |i: int|
            (
                matches@[i].0@,
                match matches@[i].1 {
                    Some(g) => Some(g@),
                    None => None,
                },
            ),
    );
    let mut result = chars_of(template);
    let mut i: usize = 0;
    assert(ms.subrange(0, 0) =~= Seq::<(Seq<char>, Option<Seq<char>>)>::empty());
    assert(token_pairs(ms.subrange(0, 0)).len() == 0);
    assert(token_pairs(ms).skip(0) =~= token_pairs(ms));
    assert(token_pairs(ms).subrange(0, 0) =~= token_pairs(ms.subrange(0, 0)));
    while i < matches.len()
        invariant
            i <= matches.len(),
            ms.len() == matches@.len(),
            forall|k: int|
                0 <= k < matches@.len() ==> #[trigger] ms[k] == (
                    matches@[k].0@,
                    match matches@[k].1 {
                        Some(g) => Some(g@),
                        None => None,
                    },
                ),
            interpolate_pairs(template@, token_pairs(ms), request.model(), store.model())
                == interpolate_pairs(
                result@,
                token_pairs(ms).skip(token_pairs(ms.subrange(0, i as int)).len() as int),
                request.model(),
                store.model(),
            ),
            token_pairs(ms.subrange(0, i as int)).len() <= token_pairs(ms).len(),
            token_pairs(ms).subrange(0, token_pairs(ms.subrange(0, i as int)).len() as int)
                == token_pairs(ms.subrange(0, i as int)),
        decreases matches.len() - i,
    {
        proof {
            lemma_token_pairs_prefix(ms, i as int);
        }
        match &matches[i].1 {
            Some(path) => {
                let mut token = String::new();
                token.append("ctx(");
                token.append(path.as_str());
                token.append(")");
                let v = resolve_manifest_value(&JsonValue::Str(token), request, store);
                let text = match &v {
                    JsonValue::Str(s) => chars_of(s.as_str()),
                    JsonValue::Null => Vec::new(),
                    _ => chars_of(to_json_text(&v).as_str()),
                };
                assert(text@ == replacement_text(v.model()));
                let full = chars_of(matches[i].0.as_str());
                proof {
                    let pp = token_pairs(ms);
                    let n = token_pairs(ms.subrange(0, i as int)).len() as int;
                    assert(pp.skip(n)[0] == pp[n]);
                    assert(pp.skip(n).drop_first() =~= pp.skip(n + 1));
                    assert(token@ =~= "ctx("@ + path@ + ")"@);
                }
                result = replace_chars(&result, &full, &text);
            },
            None => {},
        }
        i = i + 1;
    }
    proof {
        assert(ms.subrange(0, matches.len() as int) =~= ms);
        assert(token_pairs(ms).skip(token_pairs(ms).len() as int) =~= Seq::<
            (Seq<char>, Seq<char>),
        >::empty());
    }
    string_of(&result)
}

proof fn lemma_token_pairs_prefix(ms: Seq<(Seq<char>, Option<Seq<char>>)>, i: int)
    requires
        0 <= i < ms.len(),
        token_pairs(ms.subrange(0, i)).len() <= token_pairs(ms).len(),
        token_pairs(ms).subrange(0, token_pairs(ms.subrange(0, i)).len() as int) == token_pairs(
            ms.subrange(0, i),
        ),
    ensures
        ({
            let n = token_pairs(ms.subrange(0, i)).len() as int;
            let m = token_pairs(ms.subrange(0, i + 1));
            &&& ms.subrange(0, i + 1).drop_last() == ms.subrange(0, i)
            &&& m.len() <= token_pairs(ms).len()
            &&& token_pairs(ms).subrange(0, m.len() as int) == m
            &&& match ms[i].1 {
                Some(g) => m.len() == n + 1 && token_pairs(ms)[n] == (ms[i].0, g),
                None => m.len() == n,
            }
        }),
{
    let pre = ms.subrange(0, i + 1);
    assert(pre.drop_last() =~= ms.subrange(0, i));
    assert(pre.last() == ms[i]);
    lemma_token_pairs_prefix_len(ms, i + 1);
    let n = token_pairs(ms.subrange(0, i)).len() as int;
    let m = token_pairs(pre);
    match ms[i].1 {
        Some(g) => {
            assert(m == token_pairs(ms.subrange(0, i)).push((ms[i].0, g)));
            assert(m[n] == (ms[i].0, g));
            assert(token_pairs(ms).subrange(0, m.len() as int)[n] == token_pairs(ms)[n]);
        },
        None => {
            assert(m == token_pairs(ms.subrange(0, i)));
        },
    }
}

proof fn lemma_token_pairs_prefix_len(ms: Seq<(Seq<char>, Option<Seq<char>>)>, j: int)
    requires
        0 <= j <= ms.len(),
    ensures
        token_pairs(ms.subrange(0, j)).len() <= token_pairs(ms).len(),
        token_pairs(ms).subrange(0, token_pairs(ms.subrange(0, j)).len() as int) == token_pairs(
            ms.subrange(0, j),
        ),
    decreases ms.len() - j,
{
    if j == ms.len() {
        assert(ms.subrange(0, j) =~= ms);
        assert(token_pairs(ms).subrange(0, token_pairs(ms).len() as int) =~= token_pairs(ms));
    } else {
        lemma_token_pairs_prefix_len(ms, j + 1);
        let a = token_pairs(ms.subrange(0, j));
        let b = token_pairs(ms.subrange(0, j + 1));
        assert(ms.subrange(0, j + 1).drop_last() =~= ms.subrange(0, j));
        assert(b.subrange(0, a.len() as int) =~= a);
        assert(token_pairs(ms).subrange(0, a.len() as int) =~= token_pairs(ms).subrange(
            0,
            b.len() as int,
        ).subrange(0, a.len() as int));
    }
}

/// Fills in every `{{ ctx(path) }}` token of `template` with the value that
/// the reference names (a string as it is, nothing for null, the compact JSON
/// text of anything else). Should the token pattern not compile, the template
/// comes back unchanged.
pub fn interpolate_string_tokens(template: &str, request: &JsonValue, store: &JsonMap) -> (r: String)
    ensures
        r@ == match regex_matches(CTX_TOKEN_PATTERN@, template@) {
            Some(ms) => interpolate_pairs(template@, token_pairs(ms), request.model(), store.model()),
            None => template@,
        },
        !contains_ctx_token(template@) ==> r@ == template@,
{
    match find_matches(CTX_TOKEN_PATTERN, template) {
        Some(ms) => {
            let r = interpolate_matches(template, &ms, request, store);
            proof {
                if ms@.len() > 0 && !contains_ctx_token(template@) {
                    let t = ms@[0].0@;
                    let g = ms@[0].1->0@;
                    assert(is_ctx_token(t, g));
                    assert(occurs_in(template@, t));
                    let p = choose|p: int|
                        0 <= p && p + t.len() <= template@.len() && #[trigger] template@.subrange(
                            p,
                            p + t.len(),
                        ) == t;
                    assert(is_ctx_token(template@.subrange(p, p + t.len()), g));
                    assert(false);
                }
                let ghost got = Seq::new(
                    ms@.len(),
                    |i: int|
                        (
                            ms@[i].0@,
                            match ms@[i].1 {
                                Some(g) => Some(g@),
                                None => None,
                            },
                        ),
                );
                assert(got =~= regex_matches(CTX_TOKEN_PATTERN@, template@)->0);
                if ms@.len() == 0 {
                    assert(token_pairs(got).len() == 0);
                }
            }
            r
        },
        None => {
            let mut r = String::new();
            r.append(template);
            r
        },
    }
}

} // verus!
