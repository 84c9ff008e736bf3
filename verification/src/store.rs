//! The point store: the immutable dataset, keyed by name.  Loading
//! accepts the records in file order; a record whose name was already
//! seen overwrites the earlier one, so the store ends up with exactly
//! the last record of each name and no duplicate names.

use vstd::prelude::*;
use vstd::pervasive::VecAdditionalExecFns;
use crate::point::{neuron_wf, Neuron, NeuronView};

verus! {

/// The views of a sequence of records.
pub open spec fn views_of(s: Seq<Neuron>) -> Seq<NeuronView> {
    s.map_values(|n: Neuron| n@)
}

/// All names in a sequence of record views are distinct.
pub open spec fn names_distinct(s: Seq<NeuronView>) -> bool {
    forall|i: int, j: int| 0 <= i < j < s.len() ==> s[i].name != s[j].name
}

/// `nv` is the last record of its name within `rv[..upto]`.
pub open spec fn last_occurrence(rv: Seq<NeuronView>, upto: int, nv: NeuronView) -> bool {
    exists|j: int|
        0 <= j < upto && rv[j] == nv && (forall|k: int|
            j < k < upto ==> (#[trigger] rv[k]).name != nv.name)
}

/// What holds of the store contents `vs` once the first `upto` loaded
/// records `rv` have been taken in.
pub open spec fn load_state(vs: Seq<NeuronView>, rv: Seq<NeuronView>, upto: int) -> bool {
    &&& forall|p: int| 0 <= p < vs.len() ==> neuron_wf(#[trigger] vs[p])
    &&& names_distinct(vs)
    &&& forall|p: int| 0 <= p < vs.len() ==> last_occurrence(rv, upto, #[trigger] vs[p])
    &&& forall|j: int|
        0 <= j < upto ==> exists|p: int|
            0 <= p < vs.len() && vs[p].name == (#[trigger] rv[j]).name
}

/// A record that is the latest of its name among the first `upto`
/// stays so when record `upto`, of another name, is taken in.
proof fn lemma_latest_keeps(rv: Seq<NeuronView>, upto: int, nv: NeuronView)
    requires
        0 <= upto < rv.len(),
        last_occurrence(rv, upto, nv),
        rv[upto].name != nv.name,
    ensures
        last_occurrence(rv, upto + 1, nv),
{
    let j = choose|j: int|
        0 <= j < upto && rv[j] == nv && (forall|k: int|
            j < k < upto ==> (#[trigger] rv[k]).name != nv.name);
    assert(rv[j] == nv && (forall|k: int|
        j < k < upto + 1 ==> (#[trigger] rv[k]).name != nv.name));
}

/// Record `upto` itself is the latest of its name among the first
/// `upto + 1`.
proof fn lemma_latest_new(rv: Seq<NeuronView>, upto: int)
    requires
        0 <= upto < rv.len(),
    ensures
        last_occurrence(rv, upto + 1, rv[upto]),
{
    assert(rv[upto] == rv[upto] && (forall|k: int|
        upto < k < upto + 1 ==> (#[trigger] rv[k]).name != rv[upto].name));
}

/// Taking in record `upto` by overwriting the record of the same name
/// keeps the loading facts.
proof fn lemma_load_replace(
    vs: Seq<NeuronView>,
    rv: Seq<NeuronView>,
    upto: int,
    p: int,
)
    requires
        0 <= upto < rv.len(),
        neuron_wf(rv[upto]),
        load_state(vs, rv, upto),
        0 <= p < vs.len(),
        vs[p].name == rv[upto].name,
    ensures
        load_state(vs.update(p, rv[upto]), rv, upto + 1),
{
    let vs2 = vs.update(p, rv[upto]);
    assert(forall|q: int| 0 <= q < vs2.len() ==> (#[trigger] vs2[q]).name == vs[q].name);
    assert forall|q: int| 0 <= q < vs2.len() implies last_occurrence(
        rv,
        upto + 1,
        #[trigger] vs2[q],
    ) by {
        if q == p {
            lemma_latest_new(rv, upto);
        } else {
            lemma_latest_keeps(rv, upto, vs[q]);
        }
    }
    assert forall|j: int| 0 <= j < upto + 1 implies exists|q: int|
        0 <= q < vs2.len() && vs2[q].name == (#[trigger] rv[j]).name by {
        if j == upto {
            assert(vs2[p].name == rv[j].name);
        } else {
            let q = choose|q: int| 0 <= q < vs.len() && vs[q].name == rv[j].name;
            assert(vs2[q].name == rv[j].name);
        }
    }
}

/// Taking in record `upto` by appending it, its name never seen, keeps
/// the loading facts.
proof fn lemma_load_append(vs: Seq<NeuronView>, rv: Seq<NeuronView>, upto: int)
    requires
        0 <= upto < rv.len(),
        neuron_wf(rv[upto]),
        load_state(vs, rv, upto),
        forall|q: int| 0 <= q < vs.len() ==> (#[trigger] vs[q]).name != rv[upto].name,
    ensures
        load_state(vs.push(rv[upto]), rv, upto + 1),
{
    let vs2 = vs.push(rv[upto]);
    assert forall|q: int| 0 <= q < vs2.len() implies last_occurrence(
        rv,
        upto + 1,
        #[trigger] vs2[q],
    ) by {
        if q == vs.len() {
            lemma_latest_new(rv, upto);
            assert(vs2[q] == rv[upto]);
        } else {
            lemma_latest_keeps(rv, upto, vs[q]);
        }
    }
    assert forall|j: int| 0 <= j < upto + 1 implies exists|q: int|
        0 <= q < vs2.len() && vs2[q].name == (#[trigger] rv[j]).name by {
        if j == upto {
            assert(vs2[vs.len() as int].name == rv[j].name);
        } else {
            let q = choose|q: int| 0 <= q < vs.len() && vs[q].name == rv[j].name;
            assert(vs2[q].name == rv[j].name);
        }
    }
}

/// The immutable dataset, held in memory for the process lifetime.
pub struct PointStore {
    points: Vec<Neuron>,
}

impl View for PointStore {
    type V = Seq<NeuronView>;

    closed spec fn view(&self) -> Seq<NeuronView> {
        views_of(self.points@)
    }
}

impl PointStore {
    /// Every record is well formed and no two share a name.
    pub open spec fn wf(&self) -> bool {
        &&& forall|i: int| 0 <= i < self@.len() ==> neuron_wf(#[trigger] self@[i])
        &&& names_distinct(self@)
    }

    /// The records, in the store's own (unspecified) order.
    pub fn records(&self) -> (res: &Vec<Neuron>)
        ensures
            views_of(res@) == self@,
    {
        &self.points
    }

    /// How many records the store holds.
    pub fn len(&self) -> (res: usize)
        ensures
            res == self@.len(),
    {
        self.points.len()
    }

    /// Build the store from the loaded records, in order; a repeated
    /// name overwrites the record loaded earlier.
    #[verifier::rlimit(100)]
    pub fn load(recs: &Vec<Neuron>) -> (res: PointStore)
        requires
            forall|i: int| 0 <= i < recs@.len() ==> neuron_wf(#[trigger] views_of(recs@)[i]),
        ensures
            res.wf(),
            // everything the store holds is the last record of its name,
            // and every loaded name is in the store
            load_state(res@, views_of(recs@), recs@.len() as int),
    {
        let ghost rv = views_of(recs@);
        let mut points: Vec<Neuron> = Vec::new();
        let ghost mut vs: Seq<NeuronView> = views_of(points@);
        assert forall|i0: int| 0 <= i0 < rv.len() implies neuron_wf(#[trigger] rv[i0]) by {
            assert(views_of(recs@)[i0] == rv[i0]);
        }
        let mut i: usize = 0;
        while i < recs.len()
            invariant
                0 <= i <= recs@.len(),
                rv == views_of(recs@),
                forall|i0: int| 0 <= i0 < rv.len() ==> neuron_wf(#[trigger] rv[i0]),
                vs == views_of(points@),
                load_state(vs, rv, i as int),
            decreases recs@.len() - i,
        {
            let rec = recs[i].duplicate();
            assert(rec@ == rv[i as int]);
            let found = find_name(&points, &rec.name);
            match found {
                Some(p) => {
                    points.set(p, rec);
                    proof {
                        lemma_load_replace(vs, rv, i as int, p as int);
                        vs = vs.update(p as int, rv[i as int]);
                        assert(vs =~= views_of(points@));
                    }
                },
                None => {
                    points.push(rec);
                    proof {
                        lemma_load_append(vs, rv, i as int);
                        vs = vs.push(rv[i as int]);
                        assert(vs =~= views_of(points@));
                    }
                },
            }
            i = i + 1;
        }
        let res = PointStore { points };
        assert(res@ == vs);
        res
    }
}

/// The position of the record with the given name, if one is held.
fn find_name(points: &Vec<Neuron>, name: &Vec<u8>) -> (res: Option<usize>)
    ensures
        match res {
            Some(p) => p < points@.len() && views_of(points@)[p as int].name == name@,
            None => forall|p: int|
                0 <= p < views_of(points@).len() ==> (#[trigger] views_of(points@)[p]).name
                    != name@,
        },
{
    let mut p: usize = 0;
    while p < points.len()
        invariant
            0 <= p <= points@.len(),
            forall|p0: int|
                0 <= p0 < p ==> (#[trigger] views_of(points@)[p0]).name != name@,
        decreases points@.len() - p,
    {
        if bytes_eq(&points[p].name, name) {
            return Some(p);
        }
        p = p + 1;
    }
    None
}

/// Bytewise equality of two names.
fn bytes_eq(a: &Vec<u8>, b: &Vec<u8>) -> (res: bool)
    ensures
        res == (a@ == b@),
{
    if a.len() != b.len() {
        return false;
    }
    let mut j: usize = 0;
    while j < a.len()
        invariant
            0 <= j <= a@.len(),
            a@.len() == b@.len(),
            forall|j0: int| 0 <= j0 < j ==> a@[j0] == b@[j0],
        decreases a@.len() - j,
    {
        if a[j] != b[j] {
            return false;
        }
        j = j + 1;
    }
    assert(a@ =~= b@);
    true
}

} // verus!
