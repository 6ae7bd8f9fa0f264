use nc2mongo::{
    enforce_level_consistency, truncate_trailing_empties, truncate_trailing_fills, FILL_VALUE_BITS,
};

const FILL: u64 = FILL_VALUE_BITS;

fn bits(xs: &[f64]) -> Vec<u64> {
    xs.iter().map(|x| x.to_bits()).collect()
}

#[test]
fn fill_sentinel_bits_are_99999() {
    assert_eq!(FILL_VALUE_BITS, 99999.0f64.to_bits());
}

#[test]
fn truncation_drops_trailing_fill_run_only() {
    let mut v = bits(&[1.0, 99999.0, 3.0, 99999.0, 99999.0]);
    truncate_trailing_fills(&mut v);
    assert_eq!(v, bits(&[1.0, 99999.0, 3.0]));
}

#[test]
fn truncation_of_all_fills_is_empty() {
    let mut v = bits(&[99999.0, 99999.0]);
    truncate_trailing_fills(&mut v);
    assert!(v.is_empty());
}

#[test]
fn qc_truncation_drops_trailing_empties() {
    let mut v: Vec<String> = vec!["1".into(), "".into(), "2".into(), "".into(), "".into()];
    truncate_trailing_empties(&mut v);
    assert_eq!(v, vec!["1", "", "2"]);
}

#[test]
fn shorter_parameter_is_repadded_to_shared_maximum() {
    // Parameter A retains 5 readings, parameter B retains 8: both leave
    // enforcement at length 8, A's trailing 3 entries being the fill.
    let a: Vec<u64> = bits(&[1.0, 2.0, 3.0, 4.0, 5.0, 99999.0, 99999.0, 99999.0, 99999.0, 99999.0]);
    let b: Vec<u64> = bits(&[1.0, 2.0, 3.0, 4.0, 5.0, 6.0, 7.0, 8.0, 99999.0, 99999.0]);
    let (rt, adj, qc, aqc) = enforce_level_consistency(
        vec![("A".to_string(), a), ("B".to_string(), b)],
        Vec::new(),
        Vec::new(),
        Vec::new(),
    );
    assert!(adj.is_empty() && qc.is_empty() && aqc.is_empty());
    assert_eq!(rt.len(), 2);
    assert_eq!(rt[0].0, "A");
    assert_eq!(rt[0].1.len(), 8);
    assert_eq!(rt[0].1[..5], bits(&[1.0, 2.0, 3.0, 4.0, 5.0]));
    assert_eq!(rt[0].1[5..], [FILL, FILL, FILL]);
    assert_eq!(rt[1].0, "B");
    assert_eq!(rt[1].1, bits(&[1.0, 2.0, 3.0, 4.0, 5.0, 6.0, 7.0, 8.0]));
}

#[test]
fn maximum_spans_all_four_tables() {
    // A QC table's retained length also stretches the numeric tables.
    let (rt, _adj, qc, _aqc) = enforce_level_consistency(
        vec![("T".to_string(), bits(&[1.0, 99999.0, 99999.0]))],
        Vec::new(),
        vec![("T".to_string(), vec!["1".into(), "1".into(), "4".into()])],
        Vec::new(),
    );
    assert_eq!(rt[0].1.len(), 3);
    assert_eq!(rt[0].1, vec![1.0f64.to_bits(), FILL, FILL]);
    assert_eq!(qc[0].1, vec!["1", "1", "4"]);
}

#[test]
fn empty_parameters_are_removed_not_stored() {
    let (rt, _adj, qc, _aqc) = enforce_level_consistency(
        vec![
            ("EMPTY".to_string(), bits(&[99999.0, 99999.0])),
            ("KEEP".to_string(), bits(&[5.0])),
        ],
        Vec::new(),
        vec![("BLANK".to_string(), vec!["".to_string(), "".to_string()])],
        Vec::new(),
    );
    assert_eq!(rt.len(), 1);
    assert_eq!(rt[0].0, "KEEP");
    assert_eq!(rt[0].1, bits(&[5.0]));
    assert!(qc.is_empty());
}

#[test]
fn nan_readings_are_data_not_fill() {
    // A not-a-number reading differs from the fill both as a float and in
    // bits, so truncation keeps it.
    let mut v = vec![f64::NAN.to_bits(), FILL];
    truncate_trailing_fills(&mut v);
    assert_eq!(v.len(), 1);
    assert!(f64::from_bits(v[0]).is_nan());
}
