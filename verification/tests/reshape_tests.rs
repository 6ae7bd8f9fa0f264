use nc2mongo::{reshape, Error, Leaf, Value};

fn int_leaves(xs: &[i64]) -> Vec<Leaf> {
    xs.iter().map(|&x| Leaf::Int(x)).collect()
}

fn flatten_ints(v: &Value) -> Vec<i64> {
    let mut out = Vec::new();
    collect_ints(v, &mut out);
    out
}

fn collect_ints(v: &Value, out: &mut Vec<i64>) {
    match v {
        Value::Scalar(Leaf::Int(x)) => out.push(*x),
        Value::Scalar(_) => panic!("unexpected leaf kind"),
        Value::Array(vs) => {
            for child in vs {
                collect_ints(child, out);
            }
        }
    }
}

fn depth_of(v: &Value) -> usize {
    match v {
        Value::Scalar(_) => 0,
        Value::Array(vs) => 1 + vs.iter().map(depth_of).max().unwrap_or(0),
    }
}

#[test]
fn reshape_flattening_recovers_input() {
    let flat = int_leaves(&[1, 2, 3, 4, 5, 6, 7, 8, 9, 10, 11, 12]);
    let shape = vec![2usize, 3, 2];
    let v = reshape(flat, &shape).unwrap();
    assert_eq!(flatten_ints(&v), vec![1, 2, 3, 4, 5, 6, 7, 8, 9, 10, 11, 12]);
    assert_eq!(depth_of(&v), 3);
    match &v {
        Value::Array(rows) => assert_eq!(rows.len(), 2),
        _ => panic!("expected outer array"),
    }
}

#[test]
fn reshape_rank_one_wraps_each_leaf() {
    let v = reshape(int_leaves(&[7, 8, 9]), &vec![3usize]).unwrap();
    match &v {
        Value::Array(vs) => {
            assert_eq!(vs.len(), 3);
            for child in vs {
                assert!(matches!(child, Value::Scalar(Leaf::Int(_))));
            }
        }
        _ => panic!("expected array"),
    }
    assert_eq!(flatten_ints(&v), vec![7, 8, 9]);
}

#[test]
fn reshape_rank_zero_is_empty_array() {
    let v = reshape(Vec::new(), &Vec::new()).unwrap();
    match v {
        Value::Array(vs) => assert_eq!(vs.len(), 0),
        _ => panic!("expected empty array"),
    }
}

#[test]
fn reshape_rank_zero_rejects_leftover_leaves() {
    let r = reshape(int_leaves(&[1]), &Vec::new());
    assert!(matches!(r, Err(Error::DimensionMismatch)));
}

#[test]
fn reshape_length_mismatch_is_fatal() {
    let r = reshape(int_leaves(&[1, 2, 3, 4, 5]), &vec![2usize, 3]);
    assert!(matches!(r, Err(Error::DimensionMismatch)));
}

#[test]
fn reshape_zero_dimension_takes_no_leaves() {
    let v = reshape(Vec::new(), &vec![0usize, 3]).unwrap();
    match v {
        Value::Array(vs) => assert_eq!(vs.len(), 0),
        _ => panic!("expected array"),
    }
    let r = reshape(int_leaves(&[1]), &vec![0usize, 3]);
    assert!(matches!(r, Err(Error::DimensionMismatch)));
}
