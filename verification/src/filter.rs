//! The filter engine: the query and the hemisphere selector turn the
//! store into the visible set, strictly sorted ascending by name.  The
//! visible set is recomputed from scratch on every redraw; its contract
//! pins it down exactly, so recomputation is deterministic.

use vstd::prelude::*;
use crate::order::{
    lemma_lex_le_antisym, lemma_lex_le_total, lemma_lex_lt_le_trans, lex_le, lex_lt, name_le,
};
use crate::point::{neuron_wf, Neuron, NeuronView};
use crate::query::{matches_query, spec_matches};
use crate::side::{side_pass, WormSide};
use crate::store::{names_distinct, views_of, PointStore};

verus! {

/// Strictly ascending by name: later rows have strictly larger names.
pub open spec fn sorted_strict(s: Seq<NeuronView>) -> bool {
    forall|i: int, j: int| 0 <= i < j < s.len() ==> lex_lt(s[i].name, s[j].name)
}

/// A record is visible: some query token matches its name and it lies
/// on the selected hemisphere.
pub open spec fn visible_pred(q: Seq<u8>, side: WormSide, nv: NeuronView) -> bool {
    spec_matches(q, nv.name) && side_pass(side, nv)
}

/// `nv` occurs among the first `upto` records of `sv`.
pub open spec fn in_prefix(sv: Seq<NeuronView>, upto: int, nv: NeuronView) -> bool {
    exists|j: int| 0 <= j < upto && sv[j] == nv
}

/// Insert a record whose name is fresh into a strictly sorted list,
/// keeping it strictly sorted.
fn insert_sorted(v: &mut Vec<Neuron>, n: Neuron)
    requires
        sorted_strict(views_of(old(v)@)),
        forall|k: int|
            0 <= k < old(v)@.len() ==> (#[trigger] views_of(old(v)@)[k]).name != n@.name,
    ensures
        final(v)@.len() == old(v)@.len() + 1,
        sorted_strict(views_of(final(v)@)),
        forall|nv: NeuronView|
            #[trigger] views_of(final(v)@).contains(nv) <==> (views_of(old(v)@).contains(nv) || nv
                == n@),
{
    let ghost vs_old = views_of(v@);
    let mut p: usize = 0;
    loop
        invariant
            0 <= p <= v@.len(),
            v@ == old(v)@,
            vs_old == views_of(v@),
            sorted_strict(vs_old),
            forall|k: int| 0 <= k < vs_old.len() ==> (#[trigger] vs_old[k]).name != n@.name,
            forall|k: int| 0 <= k < p ==> lex_le((#[trigger] vs_old[k]).name, n@.name),
        ensures
            0 <= p <= v@.len(),
            v@ == old(v)@,
            forall|k: int| 0 <= k < p ==> lex_le((#[trigger] vs_old[k]).name, n@.name),
            (p as int) < vs_old.len() ==> !lex_le(vs_old[p as int].name, n@.name),
        decreases v@.len() - p,
    {
        if p >= v.len() {
            break;
        }
        assert(views_of(v@)[p as int].name == v@[p as int]@.name);
        if !name_le(&v[p].name, &n.name) {
            break;
        }
        p = p + 1;
    }
    // ahead of the insert position everything is strictly below the
    // new name; behind it everything is strictly above
    proof {
        assert forall|k: int| 0 <= k < p implies lex_lt((#[trigger] vs_old[k]).name, n@.name) by {
        }
        if (p as int) < vs_old.len() {
            lemma_lex_le_total(vs_old[p as int].name, n@.name);
            assert(lex_lt(n@.name, vs_old[p as int].name));
            assert forall|k: int| p <= k < vs_old.len() implies lex_lt(
                n@.name,
                (#[trigger] vs_old[k]).name,
            ) by {
                if k > p {
                    assert(lex_lt(vs_old[p as int].name, vs_old[k].name));
                    lemma_lex_lt_le_trans(n@.name, vs_old[p as int].name, vs_old[k].name);
                }
            }
        }
    }
    let ghost old_seq = v@;
    v.insert(p, n);
    proof {
        old_seq.insert_ensures(p as int, n);
        let vs_new = views_of(v@);
        assert forall|k: int| 0 <= k < vs_new.len() implies vs_new[k] == (if k < p {
            vs_old[k]
        } else if k == p {
            n@
        } else {
            vs_old[k - 1]
        }) by {
            assert(vs_new[k] == v@[k]@);
        }
        assert forall|i: int, j: int| 0 <= i < j < vs_new.len() implies lex_lt(
            vs_new[i].name,
            vs_new[j].name,
        ) by {
        }
        assert forall|nv: NeuronView|
            #[trigger] views_of(v@).contains(nv) <==> (vs_old.contains(nv) || nv == n@) by {
            if views_of(v@).contains(nv) {
                let k = choose|k: int| 0 <= k < vs_new.len() && vs_new[k] == nv;
                if k < p {
                    assert(vs_old[k] == nv);
                } else if k > p {
                    assert(vs_old[k - 1] == nv);
                }
            }
            if vs_old.contains(nv) {
                let k = choose|k: int| 0 <= k < vs_old.len() && vs_old[k] == nv;
                if k < p {
                    assert(vs_new[k] == nv);
                } else {
                    assert(vs_new[k + 1] == nv);
                }
            }
            if nv == n@ {
                assert(vs_new[p as int] == nv);
            }
        }
    }
}

/// The visible subset of the store under the query and hemisphere
/// selector, strictly sorted ascending by name.  The result holds
/// exactly the well-formed store records the filter passes; no input is
/// rejected and an empty result is valid.
pub fn visible(store: &PointStore, q: &Vec<u8>, side: WormSide) -> (res: Vec<Neuron>)
    requires
        store.wf(),
    ensures
        sorted_strict(views_of(res@)),
        forall|nv: NeuronView|
            #[trigger] views_of(res@).contains(nv) <==> (store@.contains(nv) && visible_pred(
                q@,
                side,
                nv,
            )),
        forall|k: int| 0 <= k < views_of(res@).len() ==> neuron_wf(#[trigger] views_of(res@)[k]),
{
    let ghost sv = store@;
    let recs = store.records();
    let mut res: Vec<Neuron> = Vec::new();
    let mut i: usize = 0;
    while i < recs.len()
        invariant
            0 <= i <= recs@.len(),
            sv == store@,
            views_of(recs@) == sv,
            forall|k: int| 0 <= k < sv.len() ==> neuron_wf(#[trigger] sv[k]),
            names_distinct(sv),
            sorted_strict(views_of(res@)),
            forall|nv: NeuronView|
                #[trigger] views_of(res@).contains(nv) <==> (in_prefix(sv, i as int, nv)
                    && visible_pred(q@, side, nv)),
            forall|k: int| 0 <= k < views_of(res@).len() ==> neuron_wf(
                #[trigger] views_of(res@)[k],
            ),
        decreases recs@.len() - i,
    {
        let ghost vs_before = views_of(res@);
        assert(recs@[i as int]@ == sv[i as int]) by {
            assert(views_of(recs@)[i as int] == recs@[i as int]@);
        }
        let hit = matches_query(q, &recs[i].name);
        let on_side = side.passes(recs[i].z);
        if hit && on_side {
            assert(visible_pred(q@, side, sv[i as int]));
            // the new record's name is fresh in the gathered rows
            assert forall|k: int| 0 <= k < views_of(res@).len() implies (#[trigger] views_of(
                res@,
            )[k]).name != sv[i as int].name by {
                let nv = views_of(res@)[k];
                assert(views_of(res@).contains(nv));
                assert(in_prefix(sv, i as int, nv));
                let j = choose|j: int| 0 <= j < i as int && sv[j] == nv;
                assert(sv[j].name != sv[i as int].name);
            }
            let n = recs[i].duplicate();
            insert_sorted(&mut res, n);
            assert forall|k: int| 0 <= k < views_of(res@).len() implies neuron_wf(
                #[trigger] views_of(res@)[k],
            ) by {
                let nv = views_of(res@)[k];
                assert(views_of(res@).contains(nv));
                if nv != sv[i as int] {
                    assert(vs_before.contains(nv));
                    let j = choose|j: int| 0 <= j < vs_before.len() && vs_before[j] == nv;
                    assert(neuron_wf(vs_before[j]));
                }
            }
            assert forall|nv: NeuronView|
                #[trigger] views_of(res@).contains(nv) <==> (in_prefix(sv, i + 1, nv)
                    && visible_pred(q@, side, nv)) by {
                if views_of(res@).contains(nv) {
                    if nv == sv[i as int] {
                        assert(0 <= i < i + 1 && sv[i as int] == nv);
                        assert(in_prefix(sv, i + 1, nv));
                    } else {
                        assert(vs_before.contains(nv));
                        assert(in_prefix(sv, i as int, nv));
                        let j = choose|j: int| 0 <= j < i as int && sv[j] == nv;
                        assert(0 <= j < i + 1 && sv[j] == nv);
                        assert(in_prefix(sv, i + 1, nv));
                    }
                }
                if in_prefix(sv, i + 1, nv) && visible_pred(q@, side, nv) {
                    let j = choose|j: int| 0 <= j < i + 1 && sv[j] == nv;
                    if j < i {
                        assert(in_prefix(sv, i as int, nv));
                        assert(vs_before.contains(nv));
                        assert(views_of(res@).contains(nv));
                    } else {
                        assert(nv == sv[i as int]);
                        assert(views_of(res@).contains(nv));
                    }
                }
            }
        } else {
            assert(!visible_pred(q@, side, sv[i as int]));
            assert forall|nv: NeuronView|
                #[trigger] views_of(res@).contains(nv) <==> (in_prefix(sv, i + 1, nv)
                    && visible_pred(q@, side, nv)) by {
                if views_of(res@).contains(nv) {
                    assert(in_prefix(sv, i as int, nv));
                    let j = choose|j: int| 0 <= j < i as int && sv[j] == nv;
                    assert(0 <= j < i + 1 && sv[j] == nv);
                    assert(in_prefix(sv, i + 1, nv));
                }
                if in_prefix(sv, i + 1, nv) && visible_pred(q@, side, nv) {
                    let j = choose|j: int| 0 <= j < i + 1 && sv[j] == nv;
                    assert(j < i);
                    assert(in_prefix(sv, i as int, nv));
                    assert(views_of(res@).contains(nv));
                }
            }
        }
        i = i + 1;
    }
    res
}

/// The visible set is a function of its inputs alone: any two strictly
/// sorted rows holding the same records are the same rows.  Hence
/// re-running the filter on an unchanged store, query and selector
/// reproduces the visible set unchanged.
pub proof fn lemma_visible_deterministic(a: Seq<NeuronView>, b: Seq<NeuronView>)
    requires
        sorted_strict(a),
        sorted_strict(b),
        forall|nv: NeuronView| a.contains(nv) <==> b.contains(nv),
    ensures
        a =~= b,
    decreases a.len(),
{
    if a.len() == 0 {
        if b.len() > 0 {
            assert(b.contains(b[0]));
            assert(a.contains(b[0]));
        }
    } else {
        assert(a.contains(a[0]));
        assert(b.contains(a[0]));
        let k = choose|k: int| 0 <= k < b.len() && b[k] == a[0];
        assert(b.contains(b[0]));
        assert(a.contains(b[0]));
        let m = choose|m: int| 0 <= m < a.len() && a[m] == b[0];
        if k > 0 {
            assert(lex_lt(b[0].name, b[k].name));
            if m > 0 {
                assert(lex_lt(a[0].name, a[m].name));
                lemma_lex_le_antisym(a[0].name, b[0].name);
            }
        }
        assert(a[0] == b[0]);
        let at = a.drop_first();
        let bt = b.drop_first();
        assert forall|nv: NeuronView| at.contains(nv) <==> bt.contains(nv) by {
            lemma_tail_contains(a, nv);
            lemma_tail_contains(b, nv);
        }
        lemma_visible_deterministic(at, bt);
        assert(forall|i: int|
            1 <= i < a.len() ==> #[trigger] a[i] == at[i - 1] && b[i] == bt[i - 1]);
        assert(a =~= b);
    }
}

/// The names visible under a query and hemisphere selection.
pub open spec fn visible_names(sv: Seq<NeuronView>, q: Seq<u8>, side: WormSide) -> Set<Seq<u8>> {
    Set::new(
        |name: Seq<u8>|
            exists|nv: NeuronView|
                #[trigger] sv.contains(nv) && visible_pred(q, side, nv) && nv.name == name,
    )
}

/// The left and right hemisphere selections together show exactly what
/// `Both` shows, for any store and query.
pub proof fn lemma_hemisphere_union(sv: Seq<NeuronView>, q: Seq<u8>)
    ensures
        visible_names(sv, q, WormSide::Left).union(visible_names(sv, q, WormSide::Right))
            =~= visible_names(sv, q, WormSide::Both),
{
    let l = visible_names(sv, q, WormSide::Left);
    let r = visible_names(sv, q, WormSide::Right);
    let b = visible_names(sv, q, WormSide::Both);
    assert forall|name: Seq<u8>| l.union(r).contains(name) implies b.contains(name) by {
        if l.contains(name) {
            let nv = choose|nv: NeuronView|
                #[trigger] sv.contains(nv) && visible_pred(q, WormSide::Left, nv) && nv.name
                    == name;
            assert(sv.contains(nv) && visible_pred(q, WormSide::Both, nv) && nv.name == name);
        } else {
            let nv = choose|nv: NeuronView|
                #[trigger] sv.contains(nv) && visible_pred(q, WormSide::Right, nv) && nv.name
                    == name;
            assert(sv.contains(nv) && visible_pred(q, WormSide::Both, nv) && nv.name == name);
        }
    }
    assert forall|name: Seq<u8>| b.contains(name) implies l.union(r).contains(name) by {
        let nv = choose|nv: NeuronView|
            #[trigger] sv.contains(nv) && visible_pred(q, WormSide::Both, nv) && nv.name == name;
        if nv.z >= 0 {
            assert(sv.contains(nv) && visible_pred(q, WormSide::Left, nv) && nv.name == name);
        } else {
            assert(sv.contains(nv) && visible_pred(q, WormSide::Right, nv) && nv.name == name);
        }
    }
}

/// No name shows on both the left and the right hemisphere selection:
/// with distinct names, each record falls on exactly one side of the
/// `z >= 0` boundary.
pub proof fn lemma_hemisphere_disjoint(sv: Seq<NeuronView>, q: Seq<u8>)
    requires
        names_distinct(sv),
    ensures
        visible_names(sv, q, WormSide::Left).intersect(visible_names(sv, q, WormSide::Right))
            =~= Set::<Seq<u8>>::empty(),
{
    let l = visible_names(sv, q, WormSide::Left);
    let r = visible_names(sv, q, WormSide::Right);
    assert forall|name: Seq<u8>| !(l.intersect(r).contains(name)) by {
        if l.contains(name) && r.contains(name) {
            let nvl = choose|nv: NeuronView|
                #[trigger] sv.contains(nv) && visible_pred(q, WormSide::Left, nv) && nv.name
                    == name;
            let nvr = choose|nv: NeuronView|
                #[trigger] sv.contains(nv) && visible_pred(q, WormSide::Right, nv) && nv.name
                    == name;
            let i = choose|i: int| 0 <= i < sv.len() && sv[i] == nvl;
            let j = choose|j: int| 0 <= j < sv.len() && sv[j] == nvr;
            assert(nvl.z >= 0 && nvr.z < 0);
            assert(i != j);
            assert(sv[i].name != sv[j].name);
        }
    }
}

/// Under a query holding the wildcard token, visibility is decided by
/// the hemisphere alone.
pub proof fn lemma_star_query_pred(q: Seq<u8>, side: WormSide, k: int)
    requires
        0 <= k < crate::query::spec_tokens(q).len(),
        crate::query::is_star(crate::query::spec_tokens(q)[k]),
    ensures
        forall|nv: NeuronView| #[trigger] visible_pred(q, side, nv) == side_pass(side, nv),
{
    assert forall|nv: NeuronView| #[trigger] visible_pred(q, side, nv) == side_pass(side, nv) by {
        crate::query::lemma_star_matches_all(q, k, nv.name);
    }
}

/// In strictly sorted rows, the tail holds exactly the records other
/// than the head.
proof fn lemma_tail_contains(a: Seq<NeuronView>, nv: NeuronView)
    requires
        sorted_strict(a),
        a.len() > 0,
    ensures
        a.drop_first().contains(nv) <==> (a.contains(nv) && nv != a[0]),
{
    let at = a.drop_first();
    if at.contains(nv) {
        let k = choose|k: int| 0 <= k < at.len() && at[k] == nv;
        assert(a[k + 1] == nv);
        assert(lex_lt(a[0].name, a[k + 1].name));
    }
    if a.contains(nv) && nv != a[0] {
        let k = choose|k: int| 0 <= k < a.len() && a[k] == nv;
        assert(k != 0);
        assert(at[k - 1] == nv);
    }
}

} // verus!
