use neuropal_lens::filter::visible;
use neuropal_lens::point::Neuron;
use neuropal_lens::query::matches_query;
use neuropal_lens::side::WormSide;
use neuropal_lens::store::PointStore;

fn mk(name: &str, x: i64, y: i64, z: i64) -> Neuron {
    Neuron { name: name.as_bytes().to_vec(), x, y, z, r: 5000, g: 5000, b: 5000 }
}

fn names(v: &[Neuron]) -> Vec<String> {
    v.iter().map(|n| String::from_utf8(n.name.clone()).unwrap()).collect()
}

fn sample_store() -> PointStore {
    let recs = vec![
        mk("PVCL", 10000, 0, 2000),
        mk("AVAL", 1000, 2000, 3000),
        mk("AVAR", 1000, 2000, -3000),
        mk("RID", -4000, 500, 0),
        mk("PVCR", 10000, 0, -2000),
    ];
    PointStore::load(&recs)
}

#[test]
fn star_query_matches_every_name() {
    let q = b"*".to_vec();
    assert!(matches_query(&q, &b"AVAL".to_vec()));
    assert!(matches_query(&q, &b"".to_vec()));
    assert!(matches_query(&q, &b"anything at all".to_vec()));
}

#[test]
fn star_query_sees_whole_hemisphere() {
    let store = sample_store();
    let q = b"*".to_vec();
    let both = visible(&store, &q, WormSide::Both);
    assert_eq!(names(&both), vec!["AVAL", "AVAR", "PVCL", "PVCR", "RID"]);
    let left = visible(&store, &q, WormSide::Left);
    assert_eq!(names(&left), vec!["AVAL", "PVCL", "RID"]);
}

#[test]
fn empty_query_matches_nothing() {
    let store = sample_store();
    let empty = visible(&store, &b"".to_vec(), WormSide::Both);
    assert_eq!(empty.len(), 0);
    assert!(!matches_query(&b"".to_vec(), &b"AVAL".to_vec()));
}

#[test]
fn all_delimiter_query_matches_nothing() {
    let q = b" ;,\t  ".to_vec();
    assert!(!matches_query(&q, &b"AVAL".to_vec()));
    let store = sample_store();
    assert_eq!(visible(&store, &q, WormSide::Both).len(), 0);
}

#[test]
fn prefix_match_is_case_sensitive() {
    assert!(matches_query(&b"AVA".to_vec(), &b"AVAL".to_vec()));
    assert!(!matches_query(&b"ava".to_vec(), &b"AVAL".to_vec()));
    assert!(!matches_query(&b"AVAL".to_vec(), &b"AVA".to_vec()));
    assert!(matches_query(&b"AVAL".to_vec(), &b"AVAL".to_vec()));
}

#[test]
fn every_delimiter_splits_tokens() {
    for q in [&b"AVA PVC"[..], &b"AVA;PVC"[..], &b"AVA,PVC"[..], &b"AVA\tPVC"[..]] {
        let q = q.to_vec();
        assert!(matches_query(&q, &b"AVAL".to_vec()), "query {:?}", q);
        assert!(matches_query(&q, &b"PVCR".to_vec()), "query {:?}", q);
        assert!(!matches_query(&q, &b"RID".to_vec()), "query {:?}", q);
    }
}

#[test]
fn wildcard_among_tokens_matches() {
    let q = b"XYZ *".to_vec();
    assert!(matches_query(&q, &b"RID".to_vec()));
}

#[test]
fn hemisphere_left_right_partition_both() {
    let store = sample_store();
    let q = b"*".to_vec();
    let left = names(&visible(&store, &q, WormSide::Left));
    let right = names(&visible(&store, &q, WormSide::Right));
    let both = names(&visible(&store, &q, WormSide::Both));
    let mut union: Vec<String> = left.iter().chain(right.iter()).cloned().collect();
    union.sort();
    assert_eq!(union, both);
    for n in &left {
        assert!(!right.contains(n), "{} on both sides", n);
    }
}

#[test]
fn z_zero_boundary_belongs_to_left() {
    let store = sample_store();
    let q = b"RID".to_vec();
    assert_eq!(names(&visible(&store, &q, WormSide::Left)), vec!["RID"]);
    assert_eq!(visible(&store, &q, WormSide::Right).len(), 0);
}

#[test]
fn scenario_ava_query_and_sides() {
    // two records that differ only in the sign of the third axis
    let recs = vec![mk("AVAL", 1000, 2000, 3000), mk("AVAR", 1000, 2000, -3000)];
    let store = PointStore::load(&recs);
    let q = b"AVA".to_vec();
    assert_eq!(names(&visible(&store, &q, WormSide::Both)), vec!["AVAL", "AVAR"]);
    assert_eq!(names(&visible(&store, &q, WormSide::Left)), vec!["AVAL"]);
    assert_eq!(names(&visible(&store, &q, WormSide::Right)), vec!["AVAR"]);
}

#[test]
fn visible_is_sorted_and_rerun_is_identical() {
    let store = sample_store();
    let q = b"*".to_vec();
    let first = visible(&store, &q, WormSide::Both);
    for w in first.windows(2) {
        assert!(w[0].name < w[1].name);
    }
    // the store is untouched; a second run reproduces the same rows
    let second = visible(&store, &q, WormSide::Both);
    assert_eq!(names(&first), names(&second));
    assert_eq!(store.len(), 5);
}

#[test]
fn load_overwrites_repeated_names() {
    let recs = vec![mk("AVAL", 1, 1, 1), mk("RID", 2, 2, 2), mk("AVAL", 9, 9, 9)];
    let store = PointStore::load(&recs);
    assert_eq!(store.len(), 2);
    let rows = visible(&store, &b"AVAL".to_vec(), WormSide::Both);
    assert_eq!(rows.len(), 1);
    assert_eq!(rows[0].x, 9);
}

#[test]
fn wormside_cycles_left_right_both() {
    let s = WormSide::Left;
    assert_eq!(s.next(), WormSide::Right);
    assert_eq!(s.next().next(), WormSide::Both);
    assert_eq!(s.next().next().next(), WormSide::Left);
}

#[test]
fn wormside_labels_and_colors() {
    assert_eq!(WormSide::Left.label(), "Left");
    assert_eq!(WormSide::Right.label(), "Right");
    assert_eq!(WormSide::Both.label(), "Both");
    assert_eq!(WormSide::Left.color(), [131, 240, 22, 120]);
    assert_eq!(WormSide::Right.color(), [240, 22, 131, 120]);
    assert_eq!(WormSide::Both.color(), [22, 131, 240, 120]);
}

#[test]
fn side_passes_matches_sign_of_z() {
    assert!(WormSide::Left.passes(0));
    assert!(WormSide::Left.passes(7));
    assert!(!WormSide::Left.passes(-1));
    assert!(WormSide::Right.passes(-1));
    assert!(!WormSide::Right.passes(0));
    assert!(WormSide::Both.passes(0));
    assert!(WormSide::Both.passes(-5));
}
