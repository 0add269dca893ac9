use zkcomp::interface::Andromeda;
use zkcomp::knowledge::{Knowledge, Marker};
use zkcomp::common::RefFinder;
use zkcomp::remote_serde::QAPDef;

#[test]
fn knowledge_bundles_parts() {
    let k = Knowledge::into(
        Some(vec![3]),
        None,
        Some(vec![7, 9]),
        None,
        Some("u8".to_string()),
    );
    assert_eq!(k.wb, Some(vec![3]));
    assert_eq!(k.vb, None);
    assert_eq!(k.wn, Some(vec![7, 9]));
    assert_eq!(k.vn, None);
    assert_eq!(k.ut, Some("u8".to_string()));
}

#[test]
fn knowledge_num_only() {
    let k = Knowledge::into_num_only(Some(vec![3, 2]), Some(vec![6]));
    assert_eq!(k.wb, None);
    assert_eq!(k.vb, None);
    assert_eq!(k.wn, Some(vec![3, 2]));
    assert_eq!(k.vn, Some(vec![6]));
    assert_eq!(k.ut, None);
}

#[test]
fn knowledge_assignments_flatten_bits_then_nums() {
    let k = Knowledge::into(
        Some(vec![3]),
        None,
        Some(vec![7, 9]),
        None,
        Some("u8".to_string()),
    );
    assert_eq!(k.assignments(), vec![1, 1, 0, 0, 0, 0, 0, 0, 7, 9]);
}

#[test]
fn knowledge_without_tag_skips_bit_parts() {
    let k = Knowledge::into(Some(vec![3]), None, Some(vec![5]), None, None);
    assert_eq!(k.assignments(), vec![5]);
}

#[test]
fn marker_inputs_flatten_nums_then_bits() {
    let m = Marker::into(Some(vec![6]), Some(vec![1]), Some("u8".to_string()));
    assert_eq!(m.vn, Some(vec![6]));
    assert_eq!(m.inputs(), vec![6, 1, 0, 0, 0, 0, 0, 0, 0]);
}

#[test]
fn andromeda_bundles_parts() {
    let a = Andromeda::into("crs text", 42usize, Some(vec![100]), vec![1, 2, 3]);
    assert_eq!(a.crs, "crs text");
    assert_eq!(a.weights, 42usize);
    assert_eq!(a.compute_out, Some(vec![100]));
    assert_eq!(a.key_pair, vec![1, 2, 3]);
}

#[test]
fn reference_bookkeeping_structs() {
    let r = RefFinder {
        code: "code.zk".to_string(),
        qap: "qap.json".to_string(),
        sg1: "sg1.json".to_string(),
        sg2: "sg2.json".to_string(),
    };
    assert_eq!(r.code, "code.zk");
    let q: QAPDef<u64> = QAPDef { u: vec![1], v: vec![2], w: vec![3], t: 9, input: 1, degree: 1 };
    assert_eq!(q.u, vec![1]);
    assert_eq!(q.t, 9);
    assert_eq!(q.input, 1);
    assert_eq!(q.degree, 1);
}
