//! Text normalization for credentials.
//!
//! A username is normalized by trimming surrounding whitespace and
//! lower-casing; a password is only trimmed, case is preserved. "Adam",
//! " adam\r\n" and "ADAM" all normalize to the single key "adam".
//!
//! Trimming is executable verified code over the characters of the input,
//! against the Unicode White_Space set. Lower-casing is the full Unicode
//! mapping of `str::to_lowercase`, whose result is named but not restated
//! here: two usernames reach the same record exactly when their trimmed,
//! lower-cased forms agree.

use vstd::prelude::*;

verus! {

/// The characters that count as surrounding whitespace: the Unicode
/// White_Space code points, the set `char::is_whitespace` documents.
pub open spec fn is_space_char(c: char) -> bool {
    let u = c as u32;
    ||| u == 0x09
    ||| u == 0x0A
    ||| u == 0x0B
    ||| u == 0x0C
    ||| u == 0x0D
    ||| u == 0x20
    ||| u == 0x85
    ||| u == 0xA0
    ||| u == 0x1680
    ||| (0x2000 <= u && u <= 0x200A)
    ||| u == 0x2028
    ||| u == 0x2029
    ||| u == 0x202F
    ||| u == 0x205F
    ||| u == 0x3000
}

/// A string with its leading whitespace removed.
pub open spec fn trimmed_start(s: Seq<char>) -> Seq<char>
    decreases s.len(),
{
    if s.len() == 0 {
        s
    } else if is_space_char(s[0]) {
        trimmed_start(s.drop_first())
    } else {
        s
    }
}

/// A string with its trailing whitespace removed.
pub open spec fn trimmed_end(s: Seq<char>) -> Seq<char>
    decreases s.len(),
{
    if s.len() == 0 {
        s
    } else if is_space_char(s.last()) {
        trimmed_end(s.drop_last())
    } else {
        s
    }
}

/// A string with surrounding whitespace removed.
pub open spec fn trimmed(s: Seq<char>) -> Seq<char> {
    trimmed_end(trimmed_start(s))
}

/// The lower-case equivalent of a string, under the full Unicode mapping of
/// `str::to_lowercase`: a function of the characters alone, the same in
/// every process and on every machine.
pub uninterp spec fn lower_of(s: Seq<char>) -> Seq<char>;

/// The normalized form of a username: trimmed, then lower-cased.
pub open spec fn normalized_username(s: Seq<char>) -> Seq<char> {
    lower_of(trimmed(s))
}

/// Relies on `String::push`: it appends the given character to the end of
/// the string.
pub assume_specification[ String::push ](s: &mut String, c: char)
    ensures
        final(s)@ == old(s)@.push(c),
;

fn is_space_exec(c: char) -> (r: bool)
    ensures
        r == is_space_char(c),
{
    let u = c as u32;
    u == 0x09 || u == 0x0A || u == 0x0B || u == 0x0C || u == 0x0D || u == 0x20 || u == 0x85
        || u == 0xA0 || u == 0x1680 || (0x2000 <= u && u <= 0x200A) || u == 0x2028 || u == 0x2029
        || u == 0x202F || u == 0x205F || u == 0x3000
}

/// Leading whitespace of length `k`, followed by a non-space character (or
/// the end of the string), pins down `trimmed_start` exactly.
proof fn lemma_trimmed_start_at(s: Seq<char>, k: int)
    requires
        0 <= k <= s.len(),
        forall|i: int| 0 <= i < k ==> is_space_char(s[i]),
        k == s.len() || !is_space_char(s[k]),
    ensures
        trimmed_start(s) == s.subrange(k, s.len() as int),
    decreases k,
{
    if k == 0 {
        if s.len() == 0 || !is_space_char(s[0]) {
            assert(trimmed_start(s) == s);
            assert(s.subrange(0, s.len() as int) =~= s);
        }
    } else {
        let t = s.drop_first();
        lemma_trimmed_start_at(t, k - 1);
        assert(t.subrange(k - 1, t.len() as int) =~= s.subrange(k, s.len() as int));
    }
}

/// Trailing whitespace from index `k` on, preceded by a non-space character
/// (or the start of the string), pins down `trimmed_end` exactly.
proof fn lemma_trimmed_end_at(s: Seq<char>, k: int)
    requires
        0 <= k <= s.len(),
        forall|i: int| k <= i < s.len() ==> is_space_char(s[i]),
        k == 0 || !is_space_char(s[k - 1]),
    ensures
        trimmed_end(s) == s.subrange(0, k),
    decreases s.len(),
{
    if k == s.len() {
        if s.len() == 0 || !is_space_char(s.last()) {
            assert(trimmed_end(s) == s);
            assert(s.subrange(0, k) =~= s);
        } else {
            let t = s.drop_last();
            lemma_trimmed_end_at(t, k - 1);
            assert(t.subrange(0, k - 1) =~= s.subrange(0, k - 1));
            assert(k - 1 == t.len());
            assert(t.subrange(0, t.len() as int) =~= t);
        }
    } else {
        let t = s.drop_last();
        lemma_trimmed_end_at(t, k);
        assert(t.subrange(0, k) =~= s.subrange(0, k));
    }
}

/// Trims surrounding whitespace from a string, returning the trimmed copy.
pub fn trim(s: &str) -> (r: String)
    ensures
        r@ == trimmed(s@),
{
    let n = s.unicode_len();
    let mut start: usize = 0;
    while start < n && is_space_exec(s.get_char(start))
        invariant
            n == s@.len(),
            0 <= start <= n,
            forall|i: int| 0 <= i < start ==> is_space_char(s@[i]),
        decreases n - start,
    {
        start = start + 1;
    }
    let mut end: usize = n;
    while end > start && is_space_exec(s.get_char(end - 1))
        invariant
            n == s@.len(),
            0 <= start <= end <= n,
            start == n || !is_space_char(s@[start as int]),
            forall|i: int| 0 <= i < start ==> is_space_char(s@[i]),
            forall|i: int| end <= i < n ==> is_space_char(s@[i]),
        decreases end,
    {
        end = end - 1;
    }
    let r = s.substring_char(start, end).to_owned();
    proof {
        lemma_trimmed_start_at(s@, start as int);
        let t = s@.subrange(start as int, n as int);
        lemma_trimmed_end_at(t, end - start);
        assert(t.subrange(0, end - start) =~= s@.subrange(start as int, end as int));
    }
    r
}

/// Relies on `str::to_lowercase`: the Unicode lowercase equivalent of the
/// input, depending on its characters alone.
#[verifier::external_body]
pub(crate) fn to_lowercase(s: &str) -> (r: String)
    ensures
        r@ == lower_of(s@),
{
    s.to_lowercase()
}

/// Normalizes a username: trims surrounding whitespace, then lower-cases.
pub fn normalize_username(s: &str) -> (r: String)
    ensures
        r@ == normalized_username(s@),
{
    let t = trim(s);
    to_lowercase(t.as_str())
}

/// A string made of whitespace alone.
pub open spec fn all_space(s: Seq<char>) -> bool {
    forall|i: int| 0 <= i < s.len() ==> is_space_char(#[trigger] s[i])
}

proof fn lemma_all_space_trimmed_start(s: Seq<char>)
    requires
        all_space(s),
    ensures
        trimmed_start(s) == Seq::<char>::empty(),
    decreases s.len(),
{
    if s.len() == 0 {
        assert(s =~= Seq::<char>::empty());
    } else {
        lemma_all_space_trimmed_start(s.drop_first());
    }
}

proof fn lemma_trimmed_start_prepend(lead: Seq<char>, x: Seq<char>)
    requires
        all_space(lead),
    ensures
        trimmed_start(lead + x) == trimmed_start(x),
    decreases lead.len(),
{
    if lead.len() == 0 {
        assert(lead + x =~= x);
    } else {
        assert((lead + x)[0] == lead[0]);
        assert((lead + x).drop_first() =~= lead.drop_first() + x);
        lemma_trimmed_start_prepend(lead.drop_first(), x);
    }
}

proof fn lemma_trimmed_start_append(s: Seq<char>, tail: Seq<char>)
    requires
        !all_space(s),
    ensures
        trimmed_start(s + tail) == trimmed_start(s) + tail,
    decreases s.len(),
{
    let j = choose|i: int| 0 <= i < s.len() && !is_space_char(s[i]);
    assert(s.len() > 0);
    if is_space_char(s[0]) {
        assert((s + tail)[0] == s[0]);
        assert((s + tail).drop_first() =~= s.drop_first() + tail);
        assert(!is_space_char(s.drop_first()[j - 1]));
        lemma_trimmed_start_append(s.drop_first(), tail);
    } else {
        assert(trimmed_start(s) == s);
        if (s + tail).len() > 0 && is_space_char((s + tail)[0]) {
            assert(false);
        }
        assert(trimmed_start(s + tail) == s + tail);
    }
}

proof fn lemma_trimmed_end_append(u: Seq<char>, tail: Seq<char>)
    requires
        all_space(tail),
    ensures
        trimmed_end(u + tail) == trimmed_end(u),
    decreases tail.len(),
{
    if tail.len() == 0 {
        assert(u + tail =~= u);
    } else {
        assert((u + tail).last() == tail.last());
        assert((u + tail).drop_last() =~= u + tail.drop_last());
        lemma_trimmed_end_append(u, tail.drop_last());
    }
}

/// Surrounding whitespace does not change what trimming yields: padding a
/// string with whitespace on either side trims to the same result.
pub proof fn lemma_trimmed_padding(lead: Seq<char>, s: Seq<char>, tail: Seq<char>)
    requires
        all_space(lead),
        all_space(tail),
    ensures
        trimmed(lead + s + tail) == trimmed(s),
{
    assert(lead + s + tail =~= lead + (s + tail));
    if all_space(s) {
        assert(all_space(s + tail));
        assert(all_space(lead + (s + tail)));
        lemma_all_space_trimmed_start(lead + (s + tail));
        lemma_all_space_trimmed_start(s);
    } else {
        lemma_trimmed_start_prepend(lead, s + tail);
        lemma_trimmed_start_append(s, tail);
        lemma_trimmed_end_append(trimmed_start(s), tail);
    }
}

/// Surrounding whitespace never changes a username's normalized form:
/// " adam\r\n" names the same record as "adam".
pub proof fn lemma_normalized_padding(lead: Seq<char>, s: Seq<char>, tail: Seq<char>)
    requires
        all_space(lead),
        all_space(tail),
    ensures
        normalized_username(lead + s + tail) == normalized_username(s),
{
    lemma_trimmed_padding(lead, s, tail);
}

/// A trimmed, non-empty string neither starts nor ends with whitespace.
proof fn lemma_trimmed_start_head(s: Seq<char>)
    ensures
        trimmed_start(s).len() > 0 ==> !is_space_char(trimmed_start(s)[0]),
    decreases s.len(),
{
    if s.len() > 0 && is_space_char(s[0]) {
        lemma_trimmed_start_head(s.drop_first());
    }
}

proof fn lemma_trimmed_end_shape(u: Seq<char>)
    ensures
        trimmed_end(u).len() > 0 ==> !is_space_char(trimmed_end(u).last()),
        trimmed_end(u).len() > 0 ==> trimmed_end(u)[0] == u[0],
    decreases u.len(),
{
    if u.len() > 0 && is_space_char(u.last()) {
        lemma_trimmed_end_shape(u.drop_last());
    }
}

proof fn lemma_trimmed_shape(s: Seq<char>)
    ensures
        trimmed(s).len() > 0 ==> !is_space_char(trimmed(s)[0]),
        trimmed(s).len() > 0 ==> !is_space_char(trimmed(s).last()),
{
    lemma_trimmed_start_head(s);
    lemma_trimmed_end_shape(trimmed_start(s));
}

/// Trimming an already trimmed string changes nothing.
pub proof fn lemma_trimmed_idempotent(s: Seq<char>)
    ensures
        trimmed(trimmed(s)) == trimmed(s),
{
    lemma_trimmed_shape(s);
    let t = trimmed(s);
    assert(trimmed_start(t) == t);
    assert(trimmed_end(t) == t);
}

} // verus!
