//! JSON pointer lookup (RFC 6901), as `serde_json`'s `Value::pointer` does it.
use vstd::prelude::*;
use crate::json::{Json, JsonValue, entries_get, lemma_values_model};
use crate::text::{
    array_index, chars_of, decimal, index_token_value, is_digit, law_decimal_is_index_token,
    lemma_decimal_digits, lemma_replace_absent, lemma_split_append, replace_all, replace_chars,
    split_chars, split_on, string_of,
};

verus! {

/// A reference token with its escapes undone: `~1` stands for `/`, then `~0`
/// for `~`.
pub open spec fn unescape_token(t: Seq<char>) -> Seq<char> {
    replace_all(replace_all(t, "~1"@, "/"@), "~0"@, "~"@)
}

/// What one reference token selects inside `cur`: a member of an object, an
/// element of an array.
pub open spec fn pointer_step(cur: Json, token: Seq<char>) -> Option<Json> {
    match cur {
        Json::Object(es) => entries_get(es, token),
        Json::Array(items) => match index_token_value(token) {
            Some(n) => if n < items.len() {
                Some(items[n as int])
            } else {
                None
            },
            None => None,
        },
        _ => None,
    }
}

/// Follows the (escaped) reference tokens from `cur`.
pub open spec fn pointer_walk(cur: Json, tokens: Seq<Seq<char>>) -> Option<Json>
    decreases tokens.len(),
{
    if tokens.len() == 0 {
        Some(cur)
    } else {
        match pointer_step(cur, unescape_token(tokens[0])) {
            Some(next) => pointer_walk(next, tokens.drop_first()),
            None => None,
        }
    }
}

/// The value that pointer `ptr` names inside `root`: the whole document for the
/// empty pointer, nothing for a pointer that does not begin with `/`.
pub open spec fn pointer_get(root: Json, ptr: Seq<char>) -> Option<Json> {
    if ptr.len() == 0 {
        Some(root)
    } else if ptr[0] != '/' {
        None
    } else {
        pointer_walk(root, split_on(ptr, '/').drop_first())
    }
}

fn unescape(t: &Vec<char>) -> (r: Vec<char>)
    ensures
        r@ == unescape_token(t@),
{
    let a = replace_chars(t, &chars_of("~1"), &chars_of("/"));
    replace_chars(&a, &chars_of("~0"), &chars_of("~"))
}

fn step<'a>(cur: &'a JsonValue, token: &Vec<char>) -> (r: Option<&'a JsonValue>)
    ensures
        match pointer_step(cur.model(), token@) {
            Some(j) => r is Some && r->0.model() == j,
            None => r is None,
        },
{
    match cur {
        JsonValue::Object(m) => {
            let key = string_of(token);
            m.get(key.as_str())
        },
        JsonValue::Array(items) => {
            proof {
                lemma_values_model(items@);
            }
            match array_index(token, items.len()) {
                Some(i) => Some(&items[i]),
                None => None,
            }
        },
        _ => None,
    }
}

/// The value that pointer `ptr` names inside `root` (`Value::pointer`).
pub fn pointer<'a>(root: &'a JsonValue, ptr: &str) -> (r: Option<&'a JsonValue>)
    ensures
        match pointer_get(root.model(), ptr@) {
            Some(j) => r is Some && r->0.model() == j,
            None => r is None,
        },
{
    let cs = chars_of(ptr);
    if cs.len() == 0 {
        return Some(root);
    }
    if cs[0] != '/' {
        return None;
    }
    let pieces = split_chars(&cs, '/');
    let ghost tokens = split_on(ptr@, '/').drop_first();
    let mut cur: &JsonValue = root;
    let mut k: usize = 1;
    assert(tokens.skip(0) =~= tokens);
    while k < pieces.len()
        invariant
            1 <= k <= pieces.len(),
            pieces@.len() == split_on(ptr@, '/').len(),
            forall|i: int| 0 <= i < pieces@.len() ==> #[trigger] pieces@[i]@ == split_on(ptr@, '/')[i],
            tokens == split_on(ptr@, '/').drop_first(),
            ptr@.len() > 0 && ptr@[0] == '/',
            pointer_get(root.model(), ptr@) == pointer_walk(cur.model(), tokens.skip(k - 1)),
        decreases pieces.len() - k,
    {
        assert(tokens.skip(k - 1)[0] == pieces@[k as int]@);
        assert(tokens.skip(k - 1).drop_first() =~= tokens.skip(k as int));
        let token = unescape(&pieces[k]);
        match step(cur, &token) {
            Some(next) => {
                cur = next;
            },
            None => {
                return None;
            },
        }
        k = k + 1;
    }
    Some(cur)
}

/// A pointer `/k` with `k` the decimal text of an index below an array's
/// length names that element of the array.
pub proof fn law_pointer_reads_array_element(items: Seq<Json>, k: nat)
    requires
        k < items.len(),
    ensures
        pointer_get(Json::Array(items), seq!['/'] + decimal(k)) == Some(items[k as int]),
{
    reveal_strlit("~1");
    reveal_strlit("~0");
    lemma_decimal_digits(k);
    law_decimal_is_index_token(k);
    let t = decimal(k);
    let ptr = seq!['/'] + t;
    assert forall|i: int| 0 <= i < t.len() implies t[i] != '/' && t[i] != '~' by {
        assert(is_digit(t[i]));
    }
    lemma_split_append(seq!['/'], t, '/');
    let e = Seq::<char>::empty();
    assert(seq!['/'].drop_last() =~= e);
    assert(split_on(e, '/') =~= seq![e]);
    assert(split_on(seq!['/'], '/') =~= seq![e, e]);
    assert(split_on(ptr, '/') =~= seq![e, t]);
    assert(split_on(ptr, '/').drop_first() =~= seq![t]);
    lemma_replace_absent(t, "~1"@, "/"@);
    lemma_replace_absent(t, "~0"@, "~"@);
    assert(unescape_token(t) == t);
    assert(pointer_step(Json::Array(items), t) == Some(items[k as int]));
    assert(seq![t].drop_first() =~= Seq::<Seq<char>>::empty());
    assert(seq![t][0] == t);
    assert(pointer_walk(items[k as int], Seq::<Seq<char>>::empty()) == Some(items[k as int]));
    assert(pointer_step(Json::Array(items), unescape_token(seq![t][0])) == Some(items[k as int]));
    assert(pointer_walk(Json::Array(items), seq![t]) == Some(items[k as int]));
}

} // verus!
