//! Character-level text operations used by the manifest language: prefix and
//! suffix tests, substring replacement, splitting, decimal numbers and the
//! ordering of object keys.
use vstd::prelude::*;

verus! {

// ---------------------------------------------------------------------------
// Specifications
// ---------------------------------------------------------------------------

/// `s` begins with `p`.
pub open spec fn starts_with(s: Seq<char>, p: Seq<char>) -> bool {
    p.len() <= s.len() && s.subrange(0, p.len() as int) == p
}

/// `s` ends with `p`.
pub open spec fn ends_with(s: Seq<char>, p: Seq<char>) -> bool {
    p.len() <= s.len() && s.subrange(s.len() - p.len(), s.len() as int) == p
}

/// Every non-overlapping occurrence of `pat` in `s`, scanned from the left,
/// replaced by `rep`; an empty `pat` matches before every character and at
/// the end (the behaviour of `str::replace`).
pub open spec fn replace_all(s: Seq<char>, pat: Seq<char>, rep: Seq<char>) -> Seq<char>
    decreases s.len(),
{
    if pat.len() == 0 {
        if s.len() == 0 {
            rep
        } else {
            rep + seq![s[0]] + replace_all(s.drop_first(), pat, rep)
        }
    } else if starts_with(s, pat) {
        rep + replace_all(s.skip(pat.len() as int), pat, rep)
    } else if s.len() == 0 {
        s
    } else {
        seq![s[0]] + replace_all(s.drop_first(), pat, rep)
    }
}

/// The pieces of `s` between occurrences of `sep` (the behaviour of
/// `str::split` with a character): one more piece than there are separators.
pub open spec fn split_on(s: Seq<char>, sep: char) -> Seq<Seq<char>>
    decreases s.len(),
{
    if s.len() == 0 {
        seq![Seq::<char>::empty()]
    } else {
        let front = split_on(s.drop_last(), sep);
        if s.last() == sep {
            front.push(Seq::<char>::empty())
        } else {
            front.update(front.len() - 1, front.last().push(s.last()))
        }
    }
}

/// Splitting always gives at least one piece.
pub proof fn lemma_split_nonempty(s: Seq<char>, sep: char)
    ensures
        split_on(s, sep).len() >= 1,
    decreases s.len(),
{
    if s.len() > 0 {
        lemma_split_nonempty(s.drop_last(), sep);
    }
}

/// The decimal digit `d` as a character.
pub open spec fn digit_char(d: nat) -> char {
    ((48 + d) as u32) as char
}

/// The decimal text of `n`, without sign or leading zeros.
pub open spec fn decimal(n: nat) -> Seq<char>
    decreases n,
{
    if n < 10 {
        seq![digit_char(n)]
    } else {
        decimal(n / 10).push(digit_char(n % 10))
    }
}

pub open spec fn is_digit(c: char) -> bool {
    '0' <= c && c <= '9'
}

pub open spec fn all_digits(t: Seq<char>) -> bool {
    forall|i: int| 0 <= i < t.len() ==> is_digit(#[trigger] t[i])
}

/// The number that a string of decimal digits denotes.
pub open spec fn digits_value(t: Seq<char>) -> nat
    decreases t.len(),
{
    if t.len() == 0 {
        0
    } else {
        digits_value(t.drop_last()) * 10 + ((t.last() as u32) - 48) as nat
    }
}

/// The array index that a reference token of a JSON pointer names: a
/// non-empty string of digits without a leading `+` and without a leading
/// zero (but for `0` itself).
pub open spec fn index_token_value(t: Seq<char>) -> Option<nat> {
    if t.len() == 0 || t[0] == '+' || (t[0] == '0' && t.len() != 1) || !all_digits(t) {
        None
    } else {
        Some(digits_value(t))
    }
}

/// Lexicographic order of `a` and `b` from position `i` on, comparing
/// characters by their scalar values (the order of the UTF-8 bytes).
pub open spec fn lex_lt_from(a: Seq<char>, b: Seq<char>, i: nat) -> bool
    decreases a.len() - i,
{
    if i >= a.len() {
        i < b.len()
    } else if i >= b.len() {
        false
    } else if a[i as int] != b[i as int] {
        a[i as int] < b[i as int]
    } else {
        lex_lt_from(a, b, i + 1)
    }
}

/// `a` sorts strictly before `b`.
pub open spec fn key_lt(a: Seq<char>, b: Seq<char>) -> bool {
    lex_lt_from(a, b, 0)
}

// ---------------------------------------------------------------------------
// Facts about the key order
// ---------------------------------------------------------------------------

proof fn lemma_lex_irreflexive(a: Seq<char>, i: nat)
    ensures
        !lex_lt_from(a, a, i),
    decreases a.len() - i,
{
    if i < a.len() {
        lemma_lex_irreflexive(a, i + 1);
    }
}

proof fn lemma_lex_asymmetric(a: Seq<char>, b: Seq<char>, i: nat)
    ensures
        !(lex_lt_from(a, b, i) && lex_lt_from(b, a, i)),
    decreases a.len() - i,
{
    if i < a.len() && i < b.len() && a[i as int] == b[i as int] {
        lemma_lex_asymmetric(a, b, i + 1);
    }
}

proof fn lemma_lex_transitive(a: Seq<char>, b: Seq<char>, c: Seq<char>, i: nat)
    requires
        lex_lt_from(a, b, i),
        lex_lt_from(b, c, i),
    ensures
        lex_lt_from(a, c, i),
    decreases a.len() - i,
{
    if i < a.len() && i < b.len() && i < c.len() && a[i as int] == b[i as int] && b[i as int]
        == c[i as int] {
        lemma_lex_transitive(a, b, c, i + 1);
    }
}

proof fn lemma_lex_total(a: Seq<char>, b: Seq<char>, i: nat)
    requires
        i <= a.len(),
        i <= b.len(),
        forall|j: int| 0 <= j < i ==> a[j] == b[j],
        a != b,
    ensures
        lex_lt_from(a, b, i) || lex_lt_from(b, a, i),
    decreases a.len() - i,
{
    if i < a.len() && i < b.len() {
        if a[i as int] == b[i as int] {
            lemma_lex_total(a, b, i + 1);
        } else {
        }
    } else if i == a.len() && i == b.len() {
        assert(a =~= b);
    }
}

/// The key order is a strict total order.
pub proof fn lemma_key_order()
    ensures
        forall|a: Seq<char>| !#[trigger] key_lt(a, a),
        forall|a: Seq<char>, b: Seq<char>| #[trigger] key_lt(a, b) ==> !key_lt(b, a),
        forall|a: Seq<char>, b: Seq<char>, c: Seq<char>|
            #[trigger] key_lt(a, b) && #[trigger] key_lt(b, c) ==> key_lt(a, c),
        forall|a: Seq<char>, b: Seq<char>| a != b ==> #[trigger] key_lt(a, b) || key_lt(b, a),
{
    assert forall|a: Seq<char>| !#[trigger] key_lt(a, a) by {
        lemma_lex_irreflexive(a, 0);
    }
    assert forall|a: Seq<char>, b: Seq<char>| #[trigger] key_lt(a, b) implies !key_lt(b, a) by {
        lemma_lex_asymmetric(a, b, 0);
    }
    assert forall|a: Seq<char>, b: Seq<char>, c: Seq<char>|
        #[trigger] key_lt(a, b) && #[trigger] key_lt(b, c) implies key_lt(a, c) by {
        lemma_lex_transitive(a, b, c, 0);
    }
    assert forall|a: Seq<char>, b: Seq<char>| a != b implies #[trigger] key_lt(a, b) || key_lt(
        b,
        a,
    ) by {
        lemma_lex_total(a, b, 0);
    }
}

// ---------------------------------------------------------------------------
// Executable operations
// ---------------------------------------------------------------------------

/// Appends one character (`String::push`).
#[verifier::external_body]
pub(crate) fn push_char(s: &mut String, c: char)
    ensures
        final(s)@ == old(s)@.push(c),
{
    s.push(c);
}

/// The characters of `s`.
pub fn chars_of(s: &str) -> (r: Vec<char>)
    ensures
        r@ == s@,
{
    let n = s.unicode_len();
    let mut r: Vec<char> = Vec::new();
    let mut i: usize = 0;
    while i < n
        invariant
            n == s@.len(),
            i <= n,
            r@ == s@.subrange(0, i as int),
        decreases n - i,
    {
        let c = s.get_char(i);
        r.push(c);
        i = i + 1;
        assert(r@ =~= s@.subrange(0, i as int));
    }
    assert(r@ =~= s@);
    r
}

/// The string made of the characters `cs`.
pub fn string_of(cs: &Vec<char>) -> (r: String)
    ensures
        r@ == cs@,
{
    let mut r = String::new();
    let mut i: usize = 0;
    while i < cs.len()
        invariant
            i <= cs.len(),
            r@ == cs@.subrange(0, i as int),
        decreases cs.len() - i,
    {
        push_char(&mut r, cs[i]);
        i = i + 1;
        assert(r@ =~= cs@.subrange(0, i as int));
    }
    assert(r@ =~= cs@);
    r
}

/// Appends the characters `cs` to `out`.
pub fn extend_chars(out: &mut Vec<char>, cs: &Vec<char>)
    ensures
        final(out)@ == old(out)@ + cs@,
{
    let mut i: usize = 0;
    while i < cs.len()
        invariant
            i <= cs.len(),
            out@ == old(out)@ + cs@.subrange(0, i as int),
        decreases cs.len() - i,
    {
        out.push(cs[i]);
        i = i + 1;
        assert(out@ =~= old(out)@ + cs@.subrange(0, i as int));
    }
    assert(cs@.subrange(0, cs@.len() as int) =~= cs@);
}

/// Whether `s` holds `p` at position `at`.
pub fn matches_at(s: &Vec<char>, p: &Vec<char>, at: usize) -> (r: bool)
    requires
        at <= s.len(),
    ensures
        r == starts_with(s@.skip(at as int), p@),
{
    if p.len() > s.len() - at {
        return false;
    }
    let mut j: usize = 0;
    while j < p.len()
        invariant
            at + p.len() <= s.len(),
            j <= p.len(),
            forall|k: int| 0 <= k < j ==> s@[at + k] == p@[k],
        decreases p.len() - j,
    {
        if s[at + j] != p[j] {
            assert(s@.skip(at as int).subrange(0, p.len() as int)[j as int] != p@[j as int]);
            return false;
        }
        j = j + 1;
    }
    assert(s@.skip(at as int).subrange(0, p.len() as int) =~= p@);
    true
}

/// `s` begins with `p`.
pub fn has_prefix(s: &Vec<char>, p: &Vec<char>) -> (r: bool)
    ensures
        r == starts_with(s@, p@),
{
    let r = matches_at(s, p, 0);
    assert(s@.skip(0) =~= s@);
    r
}

/// `s` ends with `p`.
pub fn has_suffix(s: &Vec<char>, p: &Vec<char>) -> (r: bool)
    ensures
        r == ends_with(s@, p@),
{
    if p.len() > s.len() {
        return false;
    }
    let at = s.len() - p.len();
    let r = matches_at(s, p, at);
    assert(s@.skip(at as int).subrange(0, p.len() as int) =~= s@.subrange(
        at as int,
        s.len() as int,
    ));
    r
}

/// The characters of `s` from `from` up to (not including) `to`.
pub fn slice_chars(s: &Vec<char>, from: usize, to: usize) -> (r: Vec<char>)
    requires
        from <= to <= s.len(),
    ensures
        r@ == s@.subrange(from as int, to as int),
{
    let mut r: Vec<char> = Vec::new();
    let mut i = from;
    while i < to
        invariant
            from <= i <= to <= s.len(),
            r@ == s@.subrange(from as int, i as int),
        decreases to - i,
    {
        r.push(s[i]);
        i = i + 1;
        assert(r@ =~= s@.subrange(from as int, i as int));
    }
    r
}

proof fn lemma_replace_step(s: Seq<char>, pat: Seq<char>, rep: Seq<char>, i: int)
    requires
        0 <= i < s.len(),
        pat.len() > 0,
    ensures
        starts_with(s.skip(i), pat) ==> replace_all(s.skip(i), pat, rep) == rep + replace_all(
            s.skip(i + pat.len()),
            pat,
            rep,
        ),
        !starts_with(s.skip(i), pat) ==> replace_all(s.skip(i), pat, rep) == seq![s[i]]
            + replace_all(s.skip(i + 1), pat, rep),
{
    assert(s.skip(i).drop_first() =~= s.skip(i + 1));
    if starts_with(s.skip(i), pat) {
        assert(s.skip(i).skip(pat.len() as int) =~= s.skip(i + pat.len()));
    }
}

proof fn lemma_replace_empty_step(s: Seq<char>, pat: Seq<char>, rep: Seq<char>, i: int)
    requires
        0 <= i < s.len(),
        pat.len() == 0,
    ensures
        replace_all(s.skip(i), pat, rep) == rep + seq![s[i]] + replace_all(s.skip(i + 1), pat, rep),
{
    assert(s.skip(i).drop_first() =~= s.skip(i + 1));
}

/// `s` with every non-overlapping occurrence of `pat` replaced by `rep`
/// (`str::replace`).
pub fn replace_chars(s: &Vec<char>, pat: &Vec<char>, rep: &Vec<char>) -> (r: Vec<char>)
    ensures
        r@ == replace_all(s@, pat@, rep@),
{
    let mut out: Vec<char> = Vec::new();
    let mut i: usize = 0;
    assert(s@.skip(0) =~= s@);
    assert(out@ + replace_all(s@, pat@, rep@) =~= replace_all(s@, pat@, rep@));
    while i < s.len()
        invariant
            i <= s.len(),
            out@ + replace_all(s@.skip(i as int), pat@, rep@) == replace_all(s@, pat@, rep@),
        decreases s.len() - i,
    {
        if pat.len() == 0 {
            proof {
                lemma_replace_empty_step(s@, pat@, rep@, i as int);
            }
            let ghost before = out@;
            extend_chars(&mut out, rep);
            out.push(s[i]);
            assert(out@ =~= before + rep@ + seq![s@[i as int]]);
            i = i + 1;
        } else if matches_at(s, pat, i) {
            proof {
                lemma_replace_step(s@, pat@, rep@, i as int);
            }
            extend_chars(&mut out, rep);
            i = i + pat.len();
        } else {
            proof {
                lemma_replace_step(s@, pat@, rep@, i as int);
            }
            let ghost before = out@;
            out.push(s[i]);
            assert(out@ =~= before + seq![s@[i as int]]);
            i = i + 1;
        }
    }
    assert(s@.skip(i as int) =~= Seq::<char>::empty());
    if pat.len() == 0 {
        extend_chars(&mut out, rep);
    } else {
        assert(!starts_with(s@.skip(i as int), pat@));
    }
    out
}

/// The pieces of `s` between occurrences of `sep` (`str::split`).
pub fn split_chars(s: &Vec<char>, sep: char) -> (r: Vec<Vec<char>>)
    ensures
        r@.len() == split_on(s@, sep).len(),
        r@.len() >= 1,
        forall|k: int| 0 <= k < r@.len() ==> #[trigger] r@[k]@ == split_on(s@, sep)[k],
{
    let mut done: Vec<Vec<char>> = Vec::new();
    let mut cur: Vec<char> = Vec::new();
    let mut i: usize = 0;
    assert(s@.subrange(0, 0) =~= Seq::<char>::empty());
    while i < s.len()
        invariant
            i <= s.len(),
            done@.len() + 1 == split_on(s@.subrange(0, i as int), sep).len(),
            forall|k: int|
                0 <= k < done@.len() ==> #[trigger] done@[k]@ == split_on(
                    s@.subrange(0, i as int),
                    sep,
                )[k],
            cur@ == split_on(s@.subrange(0, i as int), sep).last(),
        decreases s.len() - i,
    {
        let c = s[i];
        let ghost pre = s@.subrange(0, i as int);
        let ghost next = s@.subrange(0, i + 1);
        assert(next.drop_last() =~= pre);
        assert(next.last() == c);
        if c == sep {
            let finished = cur;
            done.push(finished);
            cur = Vec::new();
            assert(cur@ =~= Seq::<char>::empty());
        } else {
            cur.push(c);
        }
        i = i + 1;
    }
    assert(s@.subrange(0, s.len() as int) =~= s@);
    done.push(cur);
    proof {
        lemma_split_nonempty(s@, sep);
    }
    done
}

/// The decimal digit `d` as a character.
pub fn digit(d: usize) -> (c: char)
    requires
        d < 10,
    ensures
        c == digit_char(d as nat),
{
    if d == 0 {
        '0'
    } else if d == 1 {
        '1'
    } else if d == 2 {
        '2'
    } else if d == 3 {
        '3'
    } else if d == 4 {
        '4'
    } else if d == 5 {
        '5'
    } else if d == 6 {
        '6'
    } else if d == 7 {
        '7'
    } else if d == 8 {
        '8'
    } else {
        '9'
    }
}

/// The decimal text of `n` (`usize`'s `Display`).
pub fn decimal_string(n: usize) -> (r: String)
    ensures
        r@ == decimal(n as nat),
    decreases n,
{
    if n < 10 {
        let mut r = String::new();
        push_char(&mut r, digit(n));
        assert(r@ =~= decimal(n as nat));
        r
    } else {
        let mut r = decimal_string(n / 10);
        push_char(&mut r, digit(n % 10));
        r
    }
}

proof fn lemma_digits_value_push(t: Seq<char>, c: char)
    ensures
        digits_value(t.push(c)) == digits_value(t) * 10 + ((c as u32) - 48) as nat,
{
    assert(t.push(c).drop_last() =~= t);
}

proof fn lemma_digits_grow(v: nat, d: nat, cap: nat)
    requires
        d < 10,
    ensures
        (if v > cap { cap + 1 } else { v }) * 10 + d > cap <==> v * 10 + d > cap,
        v * 10 + d <= cap ==> v <= cap,
{
    assert((if v > cap { cap + 1 } else { v }) * 10 + d > cap <==> v * 10 + d > cap) by (nonlinear_arith)
        requires
            d < 10,
    ;
    assert(v * 10 + d <= cap ==> v <= cap) by (nonlinear_arith);
}

/// The array position that the reference token `tok` names, when it is below
/// `len`.
pub fn array_index(tok: &Vec<char>, len: usize) -> (r: Option<usize>)
    ensures
        r == (match index_token_value(tok@) {
            Some(n) => if n < len {
                Some(n as usize)
            } else {
                None
            },
            None => None,
        }),
{
    if tok.len() == 0 || tok[0] == '+' || (tok[0] == '0' && tok.len() != 1) {
        return None;
    }
    // `acc` holds the value of the digits read so far, or `len + 1` once it exceeds `len`.
    let cap: u128 = len as u128;
    let mut acc: u128 = 0;
    let mut i: usize = 0;
    while i < tok.len()
        invariant
            i <= tok.len(),
            cap == len,
            all_digits(tok@.subrange(0, i as int)),
            acc as int == (if digits_value(tok@.subrange(0, i as int)) > cap {
                cap + 1
            } else {
                digits_value(tok@.subrange(0, i as int)) as int
            }),
        decreases tok.len() - i,
    {
        let c = tok[i];
        if !(c >= '0' && c <= '9') {
            assert(!is_digit(tok@[i as int]));
            assert(!all_digits(tok@));
            return None;
        }
        let d = (c as u32 - 48) as u128;
        let ghost pre = tok@.subrange(0, i as int);
        assert(tok@.subrange(0, i + 1) =~= pre.push(c));
        proof {
            lemma_digits_value_push(pre, c);
            lemma_digits_grow(digits_value(pre), d as nat, cap as nat);
        }
        if acc > cap {
            acc = cap + 1;
        } else {
            acc = acc * 10 + d;
            if acc > cap {
                acc = cap + 1;
            }
        }
        i = i + 1;
        assert(all_digits(tok@.subrange(0, i as int)));
    }
    assert(tok@.subrange(0, tok.len() as int) =~= tok@);
    if acc >= cap {
        None
    } else {
        Some(acc as usize)
    }
}

/// `a` sorts strictly before `b`.
pub fn key_less(a: &Vec<char>, b: &Vec<char>) -> (r: bool)
    ensures
        r == key_lt(a@, b@),
{
    let mut i: usize = 0;
    while i < a.len() && i < b.len() && a[i] == b[i]
        invariant
            i <= a.len(),
            i <= b.len(),
            key_lt(a@, b@) == lex_lt_from(a@, b@, i as nat),
        decreases a.len() - i,
    {
        i = i + 1;
    }
    if i >= a.len() {
        i < b.len()
    } else if i >= b.len() {
        false
    } else {
        a[i] < b[i]
    }
}

/// Whether two strings hold the same characters.
pub fn same_text(a: &str, b: &str) -> (r: bool)
    ensures
        r == (a@ == b@),
{
    let x = chars_of(a);
    let y = chars_of(b);
    if x.len() != y.len() {
        return false;
    }
    let mut i: usize = 0;
    while i < x.len()
        invariant
            x@ == a@,
            y@ == b@,
            x.len() == y.len(),
            i <= x.len(),
            forall|k: int| 0 <= k < i ==> x@[k] == y@[k],
        decreases x.len() - i,
    {
        if x[i] != y[i] {
            return false;
        }
        i = i + 1;
    }
    assert(x@ =~= y@);
    true
}

/// Replacing leaves a text alone when the pattern's first character does not
/// occur in it.
pub proof fn lemma_replace_absent(s: Seq<char>, pat: Seq<char>, rep: Seq<char>)
    requires
        pat.len() > 0,
        forall|i: int| 0 <= i < s.len() ==> s[i] != pat[0],
    ensures
        replace_all(s, pat, rep) == s,
    decreases s.len(),
{
    if s.len() > 0 {
        assert(!starts_with(s, pat)) by {
            if starts_with(s, pat) {
                assert(s.subrange(0, pat.len() as int)[0] == s[0]);
            }
        }
        lemma_replace_absent(s.drop_first(), pat, rep);
        assert(seq![s[0]] + s.drop_first() =~= s);
    }
}

/// Appending text without the separator extends the last piece.
pub proof fn lemma_split_append(a: Seq<char>, k: Seq<char>, sep: char)
    requires
        forall|i: int| 0 <= i < k.len() ==> k[i] != sep,
    ensures
        split_on(a + k, sep) == split_on(a, sep).update(
            split_on(a, sep).len() - 1,
            split_on(a, sep).last() + k,
        ),
    decreases k.len(),
{
    lemma_split_nonempty(a, sep);
    let front = split_on(a, sep);
    if k.len() == 0 {
        assert(a + k =~= a);
        assert(front.last() + k =~= front.last());
        assert(front.update(front.len() - 1, front.last() + k) =~= front);
    } else {
        let k2 = k.drop_last();
        lemma_split_append(a, k2, sep);
        assert((a + k).drop_last() =~= a + k2);
        assert((a + k).last() == k.last());
        let mid = split_on(a + k2, sep);
        assert(mid.last() == front.last() + k2);
        assert(mid.last().push(k.last()) =~= front.last() + k);
        assert(mid.update(mid.len() - 1, mid.last().push(k.last())) =~= front.update(
            front.len() - 1,
            front.last() + k,
        ));
    }
}

/// The decimal text of a number is a non-empty run of digits, without a
/// leading zero unless the number is zero, and denotes that number.
pub proof fn lemma_decimal_digits(n: nat)
    ensures
        decimal(n).len() > 0,
        all_digits(decimal(n)),
        n >= 1 ==> decimal(n)[0] != '0',
        digits_value(decimal(n)) == n,
    decreases n,
{
    if n < 10 {
        let d = digit_char(n);
        assert((d as u32) == 48 + n);
        assert(decimal(n) =~= seq![d]);
        assert(decimal(n).drop_last() =~= Seq::<char>::empty());
        assert(digits_value(decimal(n).drop_last()) == 0);
    } else {
        lemma_decimal_digits(n / 10);
        let t = decimal(n);
        let d = digit_char(n % 10);
        assert((d as u32) == 48 + n % 10);
        assert(t.drop_last() =~= decimal(n / 10));
        assert(t[0] == decimal(n / 10)[0]);
        assert forall|i: int| 0 <= i < t.len() implies is_digit(#[trigger] t[i]) by {
            if i < t.len() - 1 {
                assert(t[i] == decimal(n / 10)[i]);
            }
        }
        assert(digits_value(t) == (n / 10) * 10 + n % 10);
    }
}

/// Every decimal text is the array-index token of its number.
pub proof fn law_decimal_is_index_token(n: nat)
    ensures
        index_token_value(decimal(n)) == Some(n),
{
    lemma_decimal_digits(n);
    assert(is_digit(decimal(n)[0]));
    if n == 0 {
        assert(decimal(0).len() == 1);
    }
}

} // verus!
