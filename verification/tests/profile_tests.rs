use nc2mongo::{
    build_level_tables, build_profile_record, decode_station_parameters, wants_adjusted,
    MetadataRegistry, ParamInput, ProfileInputs, Error, FILL_VALUE_BITS, INT_SENTINEL,
    JULD_FILL_BITS,
};

fn param(name: &str, values: &[f64]) -> ParamInput {
    ParamInput {
        name: name.to_string(),
        present: true,
        values: Some(values.iter().map(|x| x.to_bits()).collect()),
        adjusted: None,
        qc_raw: None,
        adjusted_qc_raw: None,
        units: None,
        long_name: None,
        profile_qc_raw: None,
    }
}

fn empty_inputs() -> ProfileInputs {
    ProfileInputs {
        data_type_raw: None,
        format_version_raw: None,
        handbook_version_raw: None,
        reference_date_time_raw: None,
        date_creation_raw: None,
        date_update_raw: None,
        platform_number_raw: None,
        project_name_raw: None,
        pi_name_raw: None,
        direction_raw: None,
        data_centre_raw: None,
        dc_reference_raw: None,
        data_state_indicator_raw: None,
        data_mode_raw: None,
        platform_type_raw: None,
        float_serial_no_raw: None,
        firmware_version_raw: None,
        wmo_inst_type_raw: None,
        juld_qc_raw: None,
        position_qc_raw: None,
        positioning_system_raw: None,
        vertical_sampling_scheme_raw: None,
        parameter_data_mode_raw: None,
        cycle_number: None,
        config_mission_number: None,
        juld: None,
        juld_location: None,
        latitude: None,
        longitude: None,
    }
}

#[test]
fn juld_sentinel_bits_are_999999() {
    assert_eq!(JULD_FILL_BITS, 999999.0f64.to_bits());
}

#[test]
fn station_parameters_decode_per_slot() {
    let raw = b"PRES    TEMP    PSAL    ".to_vec();
    let names = decode_station_parameters(&Some(raw), 3, 8).unwrap();
    assert_eq!(names, vec!["PRES", "TEMP", "PSAL"]);
}

#[test]
fn absent_station_parameter_list_yields_empty_names() {
    let names = decode_station_parameters(&None, 2, 16).unwrap();
    assert_eq!(names, vec!["", ""]);
}

#[test]
fn station_parameters_reject_unsupported_width() {
    let r = decode_station_parameters(&Some(vec![0x41; 12]), 2, 6);
    assert!(matches!(r, Err(Error::DimensionMismatch)));
}

#[test]
fn station_parameters_reject_short_buffer() {
    let r = decode_station_parameters(&Some(vec![0x41; 10]), 2, 8);
    assert!(matches!(r, Err(Error::DimensionMismatch)));
}

#[test]
fn raw_only_mode_skips_the_adjusted_pair() {
    assert!(!wants_adjusted(&"TEMP".to_string(), &"R".to_string()));
    assert!(wants_adjusted(&"TEMP".to_string(), &"A".to_string()));
    assert!(wants_adjusted(&"TEMP".to_string(), &"D".to_string()));
    assert!(!wants_adjusted(&"NB_SAMPLE_CTD".to_string(), &"D".to_string()));
    assert!(!wants_adjusted(&"".to_string(), &"D".to_string()));
}

#[test]
fn adjusted_arrays_are_dropped_for_raw_mode() {
    let mut p = param("TEMP", &[1.0, 2.0]);
    p.adjusted = Some(vec![3.0f64.to_bits(), 4.0f64.to_bits()]);
    let (rt, adj, _qc, _aqc) = build_level_tables(
        &vec![p],
        &vec!["R".to_string()],
        &"D".to_string(),
    );
    assert_eq!(rt.len(), 1);
    assert!(adj.is_empty());
}

#[test]
fn adjusted_arrays_are_kept_for_delayed_mode() {
    let mut p = param("TEMP", &[1.0, 2.0]);
    p.adjusted = Some(vec![3.0f64.to_bits(), 4.0f64.to_bits()]);
    let (rt, adj, _qc, _aqc) = build_level_tables(&vec![p], &Vec::new(), &"D".to_string());
    assert_eq!(rt.len(), 1);
    assert_eq!(adj.len(), 1);
    assert_eq!(adj[0].1, vec![3.0f64.to_bits(), 4.0f64.to_bits()]);
}

#[test]
fn qc_flags_decode_and_align_with_values() {
    let mut p = param("PSAL", &[1.0, 2.0, 99999.0]);
    p.qc_raw = Some(b"11 ".to_vec());
    let (rt, _adj, qc, _aqc) = build_level_tables(&vec![p], &Vec::new(), &"D".to_string());
    assert_eq!(rt[0].1.len(), 2);
    assert_eq!(qc[0].1, vec!["1", "1"]);
}

#[test]
fn record_uses_sentinels_for_missing_scalars() {
    let mut registry = MetadataRegistry::new();
    let r = build_profile_record(
        &"R4901234_042".to_string(),
        0,
        empty_inputs(),
        &Vec::new(),
        &mut registry,
    );
    assert_eq!(r.id, "R4901234_042_0");
    assert_eq!(r.cycle_number, INT_SENTINEL);
    assert_eq!(r.config_mission_number, INT_SENTINEL);
    assert_eq!(r.juld, JULD_FILL_BITS);
    assert_eq!(r.juld_location, JULD_FILL_BITS);
    assert_eq!(r.direction, "");
    assert_eq!(r.geolocation.lat_microdeg, -90_000_000);
    assert_eq!(r.geolocation.lon_microdeg, 0);
    assert_eq!(r.metadata_id, "_m0");
    assert_eq!(registry.entries.len(), 1);
}

#[test]
fn record_decodes_fields_and_reuses_metadata() {
    let mut registry = MetadataRegistry::new();
    let mut inputs = empty_inputs();
    inputs.platform_number_raw = Some(b"4901234 ".to_vec());
    inputs.pi_name_raw = Some(b"John Doe, Jane Roe\0\0".to_vec());
    inputs.data_mode_raw = Some(b"D".to_vec());
    inputs.direction_raw = Some(b"A".to_vec());
    inputs.cycle_number = Some(17);
    inputs.juld = Some(25000.5f64.to_bits());
    inputs.latitude = Some(45_000_000);
    inputs.longitude = Some(270_000_000);
    let params = vec![param("PRES", &[10.0, 20.0, 99999.0])];
    let r1 = build_profile_record(&"f".to_string(), 1, inputs, &params, &mut registry);
    assert_eq!(r1.id, "f_1");
    assert_eq!(r1.cycle_number, 17);
    assert_eq!(r1.data_mode, "D");
    assert_eq!(r1.direction, "A");
    assert_eq!(r1.juld, 25000.5f64.to_bits());
    assert_eq!(r1.geolocation.lat_microdeg, 45_000_000);
    assert_eq!(r1.geolocation.lon_microdeg, -90_000_000);
    assert_eq!(r1.station_parameters, vec!["PRES"]);
    assert_eq!(r1.realtime_data.len(), 1);
    assert_eq!(r1.realtime_data[0].0, "PRES");
    assert_eq!(r1.realtime_data[0].1, vec![10.0f64.to_bits(), 20.0f64.to_bits()]);
    assert_eq!(r1.metadata_id, "4901234_m0");

    // A second profile of the same platform with the same descriptive
    // fields shares the metadata record.
    let mut inputs2 = empty_inputs();
    inputs2.platform_number_raw = Some(b"4901234 ".to_vec());
    inputs2.pi_name_raw = Some(b"John Doe, Jane Roe\0\0".to_vec());
    inputs2.data_mode_raw = Some(b"D".to_vec());
    let r2 = build_profile_record(&"f".to_string(), 2, inputs2, &Vec::new(), &mut registry);
    assert_eq!(r2.id, "f_2");
    assert_eq!(r2.metadata_id, "4901234_m0");
    assert_eq!(registry.entries.len(), 1);
}

#[test]
fn data_info_carries_attributes_and_mode() {
    let mut registry = MetadataRegistry::new();
    let mut inputs = empty_inputs();
    inputs.data_mode_raw = Some(b"A".to_vec());
    let mut p = param("TEMP", &[1.0]);
    p.units = Some("degree_Celsius".to_string());
    p.long_name = Some("SEA TEMPERATURE".to_string());
    p.profile_qc_raw = Some(b"A".to_vec());
    let r = build_profile_record(&"f".to_string(), 0, inputs, &vec![p], &mut registry);
    assert_eq!(r.data_info.len(), 1);
    assert_eq!(r.data_info[0].0, "TEMP");
    let d = &r.data_info[0].1;
    assert_eq!(d.data_mode, "A");
    assert_eq!(d.units, "degree_Celsius");
    assert_eq!(d.long_name, "SEA TEMPERATURE");
    assert_eq!(d.profile_parameter_qc, "A");
}

#[test]
fn excluded_parameter_gets_empty_data_info() {
    let mut registry = MetadataRegistry::new();
    let mut p = param("NB_SAMPLE_CTD", &[1.0]);
    p.units = Some("count".to_string());
    let r = build_profile_record(
        &"f".to_string(),
        0,
        empty_inputs(),
        &vec![p],
        &mut registry,
    );
    assert_eq!(r.data_info.len(), 1);
    assert_eq!(r.data_info[0].0, "NB_SAMPLE_CTD");
    assert_eq!(r.data_info[0].1.units, "");
    assert_eq!(r.data_info[0].1.data_mode, "");
}
