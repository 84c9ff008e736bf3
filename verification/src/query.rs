//! Free-text query matching.  A query is split on space, semicolon,
//! comma and tab; empty tokens are discarded; a name matches when some
//! token is the wildcard `*` or a (case-sensitive) prefix of the name.

use vstd::prelude::*;

verus! {

/// The four delimiters the query is split on: space, semicolon, comma, tab.
pub open spec fn is_delim(c: u8) -> bool {
    c == 32 || c == 59 || c == 44 || c == 9
}

/// A partly gathered token: a sequence of tokens holding `cur` if it is
/// nonempty (empty tokens are discarded), else nothing.
pub open spec fn emit(cur: Seq<u8>) -> Seq<Seq<u8>> {
    if cur.len() > 0 {
        seq![cur]
    } else {
        Seq::empty()
    }
}

/// The tokens of `q` from position `i` on, with `cur` the partial token
/// gathered just before `i`.
pub open spec fn spec_tokens_from(q: Seq<u8>, i: int, cur: Seq<u8>) -> Seq<Seq<u8>>
    decreases q.len() - i,
{
    if i < 0 || i >= q.len() {
        emit(cur)
    } else if is_delim(q[i]) {
        emit(cur) + spec_tokens_from(q, i + 1, Seq::empty())
    } else {
        spec_tokens_from(q, i + 1, cur.push(q[i]))
    }
}

/// The tokens of the query `q`: maximal delimiter-free runs, empties
/// discarded.
pub open spec fn spec_tokens(q: Seq<u8>) -> Seq<Seq<u8>> {
    spec_tokens_from(q, 0, Seq::empty())
}

/// `t` is a prefix of `n`.
pub open spec fn is_prefix(t: Seq<u8>, n: Seq<u8>) -> bool {
    t.len() <= n.len() && forall|j: int| 0 <= j < t.len() ==> t[j] == n[j]
}

/// The wildcard token `*`.
pub open spec fn is_star(t: Seq<u8>) -> bool {
    t.len() == 1 && t[0] == 42
}

/// One token matches a name: wildcard, or prefix of the name.
pub open spec fn token_hit(t: Seq<u8>, name: Seq<u8>) -> bool {
    is_star(t) || is_prefix(t, name)
}

/// Some token of the list matches the name.
pub open spec fn any_hit(toks: Seq<Seq<u8>>, name: Seq<u8>) -> bool {
    exists|k: int| 0 <= k < toks.len() && token_hit(toks[k], name)
}

/// The query matches the name: some token of the split query does.
pub open spec fn spec_matches(q: Seq<u8>, name: Seq<u8>) -> bool {
    any_hit(spec_tokens(q), name)
}

/// A hit among concatenated token lists is a hit in one of them.
pub proof fn lemma_any_hit_add(a: Seq<Seq<u8>>, b: Seq<Seq<u8>>, name: Seq<u8>)
    ensures
        any_hit(a + b, name) == (any_hit(a, name) || any_hit(b, name)),
{
    if any_hit(a + b, name) {
        let k = choose|k: int| 0 <= k < (a + b).len() && token_hit((a + b)[k], name);
        if k < a.len() {
            assert((a + b)[k] == a[k]);
        } else {
            assert((a + b)[k] == b[k - a.len()]);
        }
    }
    if any_hit(a, name) {
        let k = choose|k: int| 0 <= k < a.len() && token_hit(a[k], name);
        assert((a + b)[k] == a[k]);
    }
    if any_hit(b, name) {
        let k = choose|k: int| 0 <= k < b.len() && token_hit(b[k], name);
        assert((a + b)[k + a.len()] == b[k]);
    }
}

/// Every token the split produces is nonempty and free of delimiters:
/// the split discards empties and cuts exactly at delimiters.
pub proof fn lemma_tokens_wf(q: Seq<u8>)
    ensures
        forall|k: int|
            0 <= k < spec_tokens(q).len() ==> (#[trigger] spec_tokens(q)[k]).len() > 0,
        forall|k: int, j: int|
            0 <= k < spec_tokens(q).len() && 0 <= j < spec_tokens(q)[k].len() ==> !is_delim(
                #[trigger] spec_tokens(q)[k][j],
            ),
{
    lemma_tokens_from_wf(q, 0, Seq::empty());
}

proof fn lemma_tokens_from_wf(q: Seq<u8>, i: int, cur: Seq<u8>)
    requires
        forall|j: int| 0 <= j < cur.len() ==> !is_delim(cur[j]),
    ensures
        forall|k: int|
            0 <= k < spec_tokens_from(q, i, cur).len() ==> (#[trigger] spec_tokens_from(
                q,
                i,
                cur,
            )[k]).len() > 0,
        forall|k: int, j: int|
            0 <= k < spec_tokens_from(q, i, cur).len() && 0 <= j < spec_tokens_from(q, i, cur)[k].len()
                ==> !is_delim(#[trigger] spec_tokens_from(q, i, cur)[k][j]),
    decreases q.len() - i,
{
    if i < 0 || i >= q.len() {
        assert(spec_tokens_from(q, i, cur) == emit(cur));
        if cur.len() > 0 {
            assert(spec_tokens_from(q, i, cur)[0] == cur);
        }
    } else if is_delim(q[i]) {
        assert(spec_tokens_from(q, i, cur) == emit(cur) + spec_tokens_from(q, i + 1, Seq::empty()));
        lemma_tokens_from_wf(q, i + 1, Seq::empty());
        assert forall|k: int|
            0 <= k < spec_tokens_from(q, i, cur).len() implies (#[trigger] spec_tokens_from(
            q,
            i,
            cur,
        )[k]).len() > 0 by {
            let rest = spec_tokens_from(q, i + 1, Seq::empty());
            if k >= emit(cur).len() {
                assert(spec_tokens_from(q, i, cur)[k] == rest[k - emit(cur).len()]);
            } else {
                assert(spec_tokens_from(q, i, cur)[k] == cur);
            }
        }
        assert forall|k: int, j: int|
            0 <= k < spec_tokens_from(q, i, cur).len() && 0 <= j < spec_tokens_from(
                q,
                i,
                cur,
            )[k].len() implies !is_delim(#[trigger] spec_tokens_from(q, i, cur)[k][j]) by {
            let rest = spec_tokens_from(q, i + 1, Seq::empty());
            if k >= emit(cur).len() {
                assert(spec_tokens_from(q, i, cur)[k] == rest[k - emit(cur).len()]);
            } else {
                assert(spec_tokens_from(q, i, cur)[k] == cur);
            }
        }
    } else {
        assert(spec_tokens_from(q, i, cur) == spec_tokens_from(q, i + 1, cur.push(q[i])));
        assert(forall|j: int|
            0 <= j < cur.push(q[i]).len() ==> !is_delim(#[trigger] cur.push(q[i])[j]));
        lemma_tokens_from_wf(q, i + 1, cur.push(q[i]));
    }
}

/// A query whose token list holds the wildcard matches every name.
pub proof fn lemma_star_matches_all(q: Seq<u8>, k: int, name: Seq<u8>)
    requires
        0 <= k < spec_tokens(q).len(),
        is_star(spec_tokens(q)[k]),
    ensures
        spec_matches(q, name),
{
}

/// A query with no tokens (blank or all delimiters) matches nothing.
pub proof fn lemma_no_tokens_no_match(q: Seq<u8>, name: Seq<u8>)
    requires
        spec_tokens(q).len() == 0,
    ensures
        !spec_matches(q, name),
{
}

/// Whether one token matches a name.
fn token_hit_test(t: &Vec<u8>, name: &Vec<u8>) -> (res: bool)
    ensures
        res == token_hit(t@, name@),
{
    if t.len() == 1 && t[0] == 42 {
        return true;
    }
    if t.len() > name.len() {
        assert(!is_prefix(t@, name@));
        return false;
    }
    let mut j: usize = 0;
    loop
        invariant
            0 <= j <= t.len(),
            t.len() <= name.len(),
            !is_star(t@),
            forall|j2: int| 0 <= j2 < j ==> t@[j2] == name@[j2],
        decreases t.len() - j,
    {
        if j >= t.len() {
            return true;
        }
        if t[j] != name[j] {
            assert(!is_prefix(t@, name@));
            return false;
        }
        j = j + 1;
    }
}

/// Whether the query matches the name: split on the four delimiters,
/// discard empties, and look for a wildcard token or a prefix of the
/// name among the tokens.
pub fn matches_query(q: &Vec<u8>, name: &Vec<u8>) -> (res: bool)
    ensures
        res == spec_matches(q@, name@),
{
    let mut i: usize = 0;
    let mut cur: Vec<u8> = Vec::new();
    let mut found = false;
    loop
        invariant
            0 <= i <= q.len(),
            spec_matches(q@, name@) == (found || any_hit(
                spec_tokens_from(q@, i as int, cur@),
                name@,
            )),
        decreases q.len() - i,
    {
        if i >= q.len() {
            if found {
                return true;
            }
            if cur.len() > 0 && token_hit_test(&cur, name) {
                assert(any_hit(emit(cur@), name@)) by {
                    assert(emit(cur@)[0] == cur@);
                }
                return true;
            }
            assert(!any_hit(emit(cur@), name@));
            return false;
        }
        let c = q[i];
        if c == 32 || c == 59 || c == 44 || c == 9 {
            proof {
                lemma_any_hit_add(emit(cur@), spec_tokens_from(q@, i + 1, Seq::empty()), name@);
                if cur@.len() > 0 && token_hit(cur@, name@) {
                    assert(emit(cur@)[0] == cur@);
                }
            }
            if cur.len() > 0 && token_hit_test(&cur, name) {
                found = true;
            }
            cur.clear();
            i = i + 1;
        } else {
            cur.push(c);
            i = i + 1;
        }
    }
}

} // verus!
