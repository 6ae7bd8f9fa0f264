use nc2mongo::{metadata_record_id, profile_record_id, u64_to_decimal, MetadataRecord, MetadataRegistry};

fn record(platform: &str, project: &str) -> MetadataRecord {
    MetadataRecord {
        platform_number: platform.to_string(),
        data_type: "Argo profile".to_string(),
        format_version: "3.1".to_string(),
        handbook_version: "1.2".to_string(),
        reference_date_time: "19500101000000".to_string(),
        project_name: project.to_string(),
        pi_name: vec!["John Doe".to_string(), "Jane Roe".to_string()],
        data_centre: "IF".to_string(),
        platform_type: "APEX".to_string(),
        float_serial_no: "8421".to_string(),
        firmware_version: "070211".to_string(),
        wmo_inst_type: "846".to_string(),
        positioning_system: "GPS".to_string(),
    }
}

#[test]
fn decimal_rendering_is_exact() {
    assert_eq!(u64_to_decimal(0), "0");
    assert_eq!(u64_to_decimal(7), "7");
    assert_eq!(u64_to_decimal(1234), "1234");
    assert_eq!(u64_to_decimal(u64::MAX), "18446744073709551615");
}

#[test]
fn profile_id_joins_stem_and_index() {
    assert_eq!(profile_record_id(&"R4901234_042".to_string(), 3), "R4901234_042_3");
}

#[test]
fn metadata_id_joins_platform_and_sequence() {
    assert_eq!(metadata_record_id(&"4901234".to_string(), 0), "4901234_m0");
    assert_eq!(metadata_record_id(&"4901234".to_string(), 12), "4901234_m12");
}

#[test]
fn identical_records_share_one_id() {
    let mut reg = MetadataRegistry::new();
    let id1 = reg.resolve(record("4901234", "Argo France"));
    let id2 = reg.resolve(record("4901234", "Argo France"));
    assert_eq!(id1, "4901234_m0");
    assert_eq!(id2, id1);
    assert_eq!(reg.entries.len(), 1);
}

#[test]
fn changed_field_gets_a_new_sequence_number() {
    let mut reg = MetadataRegistry::new();
    let id1 = reg.resolve(record("4901234", "Argo France"));
    let id2 = reg.resolve(record("4901234", "Argo Italy"));
    assert_eq!(id1, "4901234_m0");
    assert_eq!(id2, "4901234_m1");
    assert_eq!(reg.entries.len(), 2);
}

#[test]
fn distinct_platforms_never_share_an_id() {
    let mut reg = MetadataRegistry::new();
    let id1 = reg.resolve(record("4901234", "Argo France"));
    let id2 = reg.resolve(record("4905678", "Argo France"));
    assert_ne!(id1, id2);
    assert_eq!(id2, "4905678_m0");
}

#[test]
fn sequence_counts_per_platform_not_globally() {
    let mut reg = MetadataRegistry::new();
    reg.resolve(record("A", "p1"));
    reg.resolve(record("B", "p1"));
    let id = reg.resolve(record("B", "p2"));
    assert_eq!(id, "B_m1");
}

#[test]
fn pi_name_list_participates_in_equality() {
    let mut reg = MetadataRegistry::new();
    let mut a = record("C", "p");
    a.pi_name = vec!["X".to_string()];
    let mut b = record("C", "p");
    b.pi_name = vec!["X".to_string(), "Y".to_string()];
    let id1 = reg.resolve(a);
    let id2 = reg.resolve(b);
    assert_ne!(id1, id2);
}
