use vstd::prelude::*;

use crate::chardecode::supported_width;
use crate::error::Error;
use crate::levels::{
    enforce_level_consistency, enforce_num_spec, enforce_qc_spec, level_max, num_model, qc_model,
};
use crate::geo::{geolocation_spec, resolve_geolocation, GeoPoint};
use crate::metadata::{
    profile_id_view, profile_record_id, registry_model, resolve_spec, MetadataModel,
    MetadataRecord, MetadataRegistry,
};
use crate::text::{clean_bytes, decode_text_item, split_pieces_model, utf8_lossy_of};
use vstd::string::StringExecFns;

verus! {

/// What the file reader hands the extractor for one declared parameter of a
/// profile: the full per-level readings (numeric values as IEEE 754 double
/// bit patterns) and the per-parameter attributes. `None` stands for a
/// variable or attribute the reader could not supply.
pub struct ParamInput {
    /// The parameter's name, from the station parameter list.
    pub name: String,
    /// Whether the file holds a variable of this name at all.
    pub present: bool,
    /// The per-level readings of the variable itself.
    pub values: Option<Vec<u64>>,
    /// The per-level readings of the adjusted variable.
    pub adjusted: Option<Vec<u64>>,
    /// The raw bytes of the per-level QC flags (one character per level).
    pub qc_raw: Option<Vec<u8>>,
    /// The raw bytes of the adjusted per-level QC flags.
    pub adjusted_qc_raw: Option<Vec<u8>>,
    /// The variable's units attribute.
    pub units: Option<String>,
    /// The variable's long-name attribute.
    pub long_name: Option<String>,
    /// The raw bytes of the whole-profile parameter QC flag.
    pub profile_qc_raw: Option<Vec<u8>>,
}

/// Descriptive information stored per parameter.
pub struct DataInfo {
    pub data_mode: String,
    pub units: String,
    pub long_name: String,
    pub profile_parameter_qc: String,
}

/// Whether a parameter's adjusted pair is skipped: its mode marks it
/// raw-only, its name is on the excluded diagnostic list, or it has no name.
pub open spec fn adjusted_skipped(name: Seq<char>, mode: Seq<char>) -> bool {
    mode == "R"@ || name == "NB_SAMPLE_CTD"@ || name.len() == 0
}

/// Decides whether the adjusted pair of a parameter is fetched at all.
pub fn wants_adjusted(name: &String, mode: &String) -> (r: bool)
    ensures
        r == !adjusted_skipped(name@, mode@),
{
    !(mode.eq(&String::from_str("R")) || name.eq(&String::from_str("NB_SAMPLE_CTD"))
        || name.as_str().is_empty())
}

/// One cleaned single-character text item per byte: how width-one QC arrays
/// decode.
pub open spec fn qc_chunks(raw: Seq<u8>) -> Seq<Seq<char>> {
    Seq::new(raw.len(), |i: int| utf8_lossy_of(clean_bytes(raw.subrange(i, i + 1))))
}

/// The per-parameter mode strings: one cleaned character per byte of the
/// per-parameter data-mode variable.
pub open spec fn modes_model(raw: Option<Vec<u8>>) -> Seq<Seq<char>> {
    if raw is Some {
        qc_chunks(raw->0@)
    } else {
        Seq::empty()
    }
}

/// The mode that governs parameter `i`: its per-parameter mode when the file
/// declares one, the profile-wide data mode otherwise.
pub open spec fn mode_for(modes: Seq<Seq<char>>, dm: Seq<char>, i: int) -> Seq<char> {
    if 0 <= i < modes.len() {
        modes[i]
    } else {
        dm
    }
}

/// Decodes a width-one packed text buffer into one cleaned string per byte.
pub fn decode_qc_array(raw: &Vec<u8>) -> (r: Vec<String>)
    ensures
        r@.len() == raw@.len(),
        forall|i: int| 0 <= i < r@.len() ==> r@[i]@ == qc_chunks(raw@)[i],
{
    let n = raw.len();
    let mut out: Vec<String> = Vec::new();
    let mut i: usize = 0;
    while i < n
        invariant
            0 <= i <= n,
            n == raw@.len(),
            out@.len() == i,
            forall|j: int| 0 <= j < i ==> out@[j]@ == qc_chunks(raw@)[j],
        decreases n - i,
    {
        let item = decode_text_item(raw.as_slice(), i, i + 1);
        out.push(item);
        i = i + 1;
    }
    out
}

/// The per-parameter modes declared by the file, or none when the variable
/// is absent.
pub fn decode_param_modes(raw: &Option<Vec<u8>>) -> (r: Vec<String>)
    ensures
        r@.len() == modes_model(*raw).len(),
        forall|i: int| 0 <= i < r@.len() ==> r@[i]@ == modes_model(*raw)[i],
{
    match raw {
        Some(bytes) => decode_qc_array(bytes),
        None => Vec::new(),
    }
}

/// The realtime per-level array a parameter contributes before enforcement.
pub open spec fn realtime_arr_model(p: ParamInput) -> Seq<u64> {
    if p.name@.len() == 0 || p.values is None {
        Seq::empty()
    } else {
        p.values->0@
    }
}

/// The adjusted per-level array a parameter contributes before enforcement.
pub open spec fn adjusted_arr_model(p: ParamInput, mode: Seq<char>) -> Seq<u64> {
    if adjusted_skipped(p.name@, mode) || p.adjusted is None {
        Seq::empty()
    } else {
        p.adjusted->0@
    }
}

/// The QC array a parameter contributes before enforcement.
pub open spec fn qc_arr_input_model(p: ParamInput) -> Seq<Seq<char>> {
    if p.name@.len() == 0 || p.qc_raw is None {
        Seq::empty()
    } else {
        qc_chunks(p.qc_raw->0@)
    }
}

/// The adjusted QC array a parameter contributes before enforcement.
pub open spec fn adjusted_qc_arr_model(p: ParamInput, mode: Seq<char>) -> Seq<Seq<char>> {
    if adjusted_skipped(p.name@, mode) || p.adjusted_qc_raw is None {
        Seq::empty()
    } else {
        qc_chunks(p.adjusted_qc_raw->0@)
    }
}

/// The realtime table assembled from the parameter list, before enforcement.
pub open spec fn realtime_table_model(params: Seq<ParamInput>) -> Seq<(Seq<char>, Seq<u64>)> {
    Seq::new(params.len(), |i: int| (params[i].name@, realtime_arr_model(params[i])))
}

/// The adjusted table assembled from the parameter list, before enforcement.
pub open spec fn adjusted_table_model(params: Seq<ParamInput>, modes: Seq<Seq<char>>, dm: Seq<char>) -> Seq<
    (Seq<char>, Seq<u64>),
> {
    Seq::new(
        params.len(),
        |i: int| (params[i].name@, adjusted_arr_model(params[i], mode_for(modes, dm, i))),
    )
}

/// The QC table assembled from the parameter list, before enforcement.
pub open spec fn qc_table_model(params: Seq<ParamInput>) -> Seq<(Seq<char>, Seq<Seq<char>>)> {
    Seq::new(params.len(), |i: int| (params[i].name@, qc_arr_input_model(params[i])))
}

/// The adjusted QC table assembled from the parameter list, before
/// enforcement.
pub open spec fn adjusted_qc_table_model(
    params: Seq<ParamInput>,
    modes: Seq<Seq<char>>,
    dm: Seq<char>,
) -> Seq<(Seq<char>, Seq<Seq<char>>)> {
    Seq::new(
        params.len(),
        |i: int| (params[i].name@, adjusted_qc_arr_model(params[i], mode_for(modes, dm, i))),
    )
}

/// The shared maximum retained length of the four assembled tables.
pub open spec fn tables_max(params: Seq<ParamInput>, modes: Seq<Seq<char>>, dm: Seq<char>) -> nat {
    level_max(
        realtime_table_model(params),
        adjusted_table_model(params, modes, dm),
        qc_table_model(params),
        adjusted_qc_table_model(params, modes, dm),
    )
}

/// Assembles the four per-level tables of one profile from its parameter
/// inputs, honoring each parameter's mode (raw-only parameters and excluded
/// diagnostic names skip the adjusted pair), and enforces length consistency
/// across them.
pub fn build_level_tables(params: &Vec<ParamInput>, modes: &Vec<String>, data_mode: &String) -> (r:
    (Vec<(String, Vec<u64>)>, Vec<(String, Vec<u64>)>, Vec<(String, Vec<String>)>, Vec<
    (String, Vec<String>)>))
    ensures
        num_model(r.0@) == enforce_num_spec(
            realtime_table_model(params@),
            tables_max(params@, modes_of(modes@), data_mode@),
        ),
        num_model(r.1@) == enforce_num_spec(
            adjusted_table_model(params@, modes_of(modes@), data_mode@),
            tables_max(params@, modes_of(modes@), data_mode@),
        ),
        qc_model(r.2@) == enforce_qc_spec(
            qc_table_model(params@),
            tables_max(params@, modes_of(modes@), data_mode@),
        ),
        qc_model(r.3@) == enforce_qc_spec(
            adjusted_qc_table_model(params@, modes_of(modes@), data_mode@),
            tables_max(params@, modes_of(modes@), data_mode@),
        ),
{
    let ghost pm = params@;
    let ghost mm = modes_of(modes@);
    let ghost dm = data_mode@;
    let n = params.len();
    let mut rt: Vec<(String, Vec<u64>)> = Vec::new();
    let mut adj: Vec<(String, Vec<u64>)> = Vec::new();
    let mut qc: Vec<(String, Vec<String>)> = Vec::new();
    let mut aqc: Vec<(String, Vec<String>)> = Vec::new();
    let mut i: usize = 0;
    while i < n
        invariant
            0 <= i <= n,
            n == pm.len(),
            pm == params@,
            mm == modes_of(modes@),
            dm == data_mode@,
            rt@.len() == i && adj@.len() == i && qc@.len() == i && aqc@.len() == i,
            forall|j: int| 0 <= j < i ==> #[trigger] num_model(rt@)[j] == realtime_table_model(pm)[j],
            forall|j: int|
                0 <= j < i ==> #[trigger] num_model(adj@)[j] == adjusted_table_model(pm, mm, dm)[j],
            forall|j: int| 0 <= j < i ==> #[trigger] qc_model(qc@)[j] == qc_table_model(pm)[j],
            forall|j: int|
                0 <= j < i ==> #[trigger] qc_model(aqc@)[j] == adjusted_qc_table_model(pm, mm, dm)[j],
        decreases n - i,
    {
        let p = &params[i];
        let mode: &String = if i < modes.len() {
            &modes[i]
        } else {
            data_mode
        };
        proof {
            assert(mode@ == mode_for(mm, dm, i as int));
        }
        let name_empty = p.name.as_str().is_empty();
        let rt_arr: Vec<u64> = if name_empty {
            Vec::new()
        } else {
            match &p.values {
                Some(v) => v.clone(),
                None => Vec::new(),
            }
        };
        let take_adjusted = wants_adjusted(&p.name, mode);
        let adj_arr: Vec<u64> = if !take_adjusted {
            Vec::new()
        } else {
            match &p.adjusted {
                Some(v) => v.clone(),
                None => Vec::new(),
            }
        };
        let qc_arr: Vec<String> = if name_empty {
            Vec::new()
        } else {
            match &p.qc_raw {
                Some(b) => decode_qc_array(b),
                None => Vec::new(),
            }
        };
        let aqc_arr: Vec<String> = if !take_adjusted {
            Vec::new()
        } else {
            match &p.adjusted_qc_raw {
                Some(b) => decode_qc_array(b),
                None => Vec::new(),
            }
        };
        proof {
            assert(rt_arr@ =~= realtime_arr_model(pm[i as int]));
            assert(adj_arr@ =~= adjusted_arr_model(pm[i as int], mode_for(mm, dm, i as int)));
            assert(crate::levels::qc_arr_model(qc_arr@) =~= qc_arr_input_model(pm[i as int]));
            assert(crate::levels::qc_arr_model(aqc_arr@) =~= adjusted_qc_arr_model(
                pm[i as int],
                mode_for(mm, dm, i as int),
            ));
        }
        let ghost rt0 = rt@;
        let ghost adj0 = adj@;
        let ghost qc0 = qc@;
        let ghost aqc0 = aqc@;
        let ghost mode_i = mode_for(mm, dm, i as int);
        rt.push((p.name.clone(), rt_arr));
        adj.push((p.name.clone(), adj_arr));
        qc.push((p.name.clone(), qc_arr));
        aqc.push((p.name.clone(), aqc_arr));
        proof {
            let ii = i as int;
            assert forall|j: int| 0 <= j < ii + 1 implies #[trigger] num_model(rt@)[j]
                == realtime_table_model(pm)[j] by {
                if j < ii {
                    assert(rt@[j] == rt0[j]);
                    assert(num_model(rt0)[j] == realtime_table_model(pm)[j]);
                } else {
                    assert(rt@[j].0@ == pm[ii].name@ && rt@[j].1@ == realtime_arr_model(pm[ii]));
                }
            }
            assert forall|j: int| 0 <= j < ii + 1 implies #[trigger] num_model(adj@)[j]
                == adjusted_table_model(pm, mm, dm)[j] by {
                if j < ii {
                    assert(adj@[j] == adj0[j]);
                    assert(num_model(adj0)[j] == adjusted_table_model(pm, mm, dm)[j]);
                } else {
                    assert(adj@[j].0@ == pm[ii].name@ && adj@[j].1@ == adjusted_arr_model(
                        pm[ii],
                        mode_i,
                    ));
                }
            }
            assert forall|j: int| 0 <= j < ii + 1 implies #[trigger] qc_model(qc@)[j]
                == qc_table_model(pm)[j] by {
                if j < ii {
                    assert(qc@[j] == qc0[j]);
                    assert(qc_model(qc0)[j] == qc_table_model(pm)[j]);
                } else {
                    assert(qc@[j].0@ == pm[ii].name@ && crate::levels::qc_arr_model(qc@[j].1@)
                        == qc_arr_input_model(pm[ii]));
                    assert(qc_model(qc@)[j] == (qc@[j].0@, crate::levels::qc_arr_model(qc@[j].1@)));
                }
            }
            assert forall|j: int| 0 <= j < ii + 1 implies #[trigger] qc_model(aqc@)[j]
                == adjusted_qc_table_model(pm, mm, dm)[j] by {
                if j < ii {
                    assert(aqc@[j] == aqc0[j]);
                    assert(qc_model(aqc0)[j] == adjusted_qc_table_model(pm, mm, dm)[j]);
                } else {
                    assert(aqc@[j].0@ == pm[ii].name@ && crate::levels::qc_arr_model(aqc@[j].1@)
                        == adjusted_qc_arr_model(pm[ii], mode_i));
                    assert(qc_model(aqc@)[j] == (aqc@[j].0@, crate::levels::qc_arr_model(
                        aqc@[j].1@,
                    )));
                }
            }
        }
        i = i + 1;
    }
    proof {
        assert(num_model(rt@) =~= realtime_table_model(pm));
        assert(num_model(adj@) =~= adjusted_table_model(pm, mm, dm));
        assert(qc_model(qc@) =~= qc_table_model(pm));
        assert(qc_model(aqc@) =~= adjusted_qc_table_model(pm, mm, dm));
    }
    enforce_level_consistency(rt, adj, qc, aqc)
}

/// The character-sequence views of a list of mode strings.
pub open spec fn modes_of(modes: Seq<String>) -> Seq<Seq<char>> {
    Seq::new(modes.len(), |i: int| modes[i]@)
}

/// The IEEE 754 bit pattern of 999999.0, the sentinel substituted for a
/// missing or unreadable Julian-day reading.
pub const JULD_FILL_BITS: u64 = 0x412E847E00000000;

/// The sentinel substituted for a missing or unreadable integer field.
pub const INT_SENTINEL: i32 = 99999;

/// What the raw bytes of a whole text field decode to: trailing null padding
/// stripped and surrounding whitespace trimmed, or empty text when the
/// reader could not supply the field.
pub open spec fn unpacked_view(o: Option<Vec<u8>>) -> Seq<char> {
    if o is Some {
        utf8_lossy_of(clean_bytes(o->0@))
    } else {
        Seq::empty()
    }
}

/// The string an optional attribute contributes: itself, or empty text.
pub open spec fn opt_string_view(o: Option<String>) -> Seq<char> {
    if o is Some {
        o->0@
    } else {
        Seq::empty()
    }
}

/// Decodes a whole raw text field, substituting empty text when absent.
pub fn unpack_text(raw: &Option<Vec<u8>>) -> (r: String)
    ensures
        r@ == unpacked_view(*raw),
{
    match raw {
        Some(b) => {
            proof {
                assert(b@.subrange(0, b@.len() as int) =~= b@);
            }
            decode_text_item(b.as_slice(), 0, b.len())
        },
        None => String::new(),
    }
}

fn opt_string_or_empty(o: &Option<String>) -> (r: String)
    ensures
        r@ == opt_string_view(*o),
{
    match o {
        Some(s) => s.clone(),
        None => String::new(),
    }
}

/// What the station parameter at slot `i` decodes to: its width-sized chunk
/// of the packed name list, cleaned; empty text when the list is absent.
pub open spec fn station_param_model(raw: Option<Vec<u8>>, w: int, i: int) -> Seq<char> {
    if raw is Some {
        utf8_lossy_of(clean_bytes(raw->0@.subrange(i * w, (i + 1) * w)))
    } else {
        Seq::empty()
    }
}

/// Decodes the packed station parameter list: one cleaned name per declared
/// parameter slot, each `width` bytes wide. An absent list yields empty
/// names; a width outside the supported fixed-width set, or a buffer that
/// does not hold exactly one chunk per slot, is a fatal error for the file.
pub fn decode_station_parameters(raw: &Option<Vec<u8>>, n_param: usize, width: usize) -> (r: Result<
    Vec<String>,
    Error,
>)
    ensures
        r is Ok <==> supported_width(width) && (raw matches Some(b) ==> b@.len() == n_param
            * width),
        r matches Ok(v) ==> v@.len() == n_param && (forall|i: int|
            0 <= i < n_param ==> (#[trigger] v@[i])@ == station_param_model(
                *raw,
                width as int,
                i,
            )),
{
    if !crate::chardecode::is_supported_width(width) {
        return Err(Error::DimensionMismatch);
    }
    match raw {
        None => {
            let mut out: Vec<String> = Vec::new();
            let mut i: usize = 0;
            while i < n_param
                invariant
                    0 <= i <= n_param,
                    out@.len() == i,
                    forall|j: int| 0 <= j < i ==> (#[trigger] out@[j])@.len() == 0,
                decreases n_param - i,
            {
                out.push(String::new());
                i = i + 1;
            }
            Ok(out)
        },
        Some(b) => {
            let blen = b.len();
            let total = match n_param.checked_mul(width) {
                Some(t) => t,
                None => {
                    return Err(Error::DimensionMismatch);
                },
            };
            if blen != total {
                return Err(Error::DimensionMismatch);
            }
            let mut out: Vec<String> = Vec::new();
            let mut i: usize = 0;
            while i < n_param
                invariant
                    0 <= i <= n_param,
                    width >= 1,
                    total == b@.len(),
                    n_param * width == total,
                    out@.len() == i,
                    forall|j: int|
                        0 <= j < i ==> (#[trigger] out@[j])@ == utf8_lossy_of(
                            clean_bytes(b@.subrange(j * width, (j + 1) * width)),
                        ),
                decreases n_param - i,
            {
                proof {
                    assert(i * width + width <= n_param * width && (i + 1) * width == i * width
                        + width) by (nonlinear_arith)
                        requires
                            i + 1 <= n_param,
                            width >= 1,
                    ;
                }
                let lo = i * width;
                let item = decode_text_item(b.as_slice(), lo, lo + width);
                out.push(item);
                i = i + 1;
            }
            Ok(out)
        },
    }
}

/// What the file reader hands the extractor for one profile: each scalar
/// field as the plain value it read (text fields as their raw packed bytes,
/// double-typed scalars as bit patterns, coordinates in micro-degrees), with
/// `None` for anything it could not supply — including a not-a-number
/// coordinate.
pub struct ProfileInputs {
    pub data_type_raw: Option<Vec<u8>>,
    pub format_version_raw: Option<Vec<u8>>,
    pub handbook_version_raw: Option<Vec<u8>>,
    pub reference_date_time_raw: Option<Vec<u8>>,
    pub date_creation_raw: Option<Vec<u8>>,
    pub date_update_raw: Option<Vec<u8>>,
    pub platform_number_raw: Option<Vec<u8>>,
    pub project_name_raw: Option<Vec<u8>>,
    pub pi_name_raw: Option<Vec<u8>>,
    pub direction_raw: Option<Vec<u8>>,
    pub data_centre_raw: Option<Vec<u8>>,
    pub dc_reference_raw: Option<Vec<u8>>,
    pub data_state_indicator_raw: Option<Vec<u8>>,
    pub data_mode_raw: Option<Vec<u8>>,
    pub platform_type_raw: Option<Vec<u8>>,
    pub float_serial_no_raw: Option<Vec<u8>>,
    pub firmware_version_raw: Option<Vec<u8>>,
    pub wmo_inst_type_raw: Option<Vec<u8>>,
    pub juld_qc_raw: Option<Vec<u8>>,
    pub position_qc_raw: Option<Vec<u8>>,
    pub positioning_system_raw: Option<Vec<u8>>,
    pub vertical_sampling_scheme_raw: Option<Vec<u8>>,
    pub parameter_data_mode_raw: Option<Vec<u8>>,
    pub cycle_number: Option<i32>,
    pub config_mission_number: Option<i32>,
    pub juld: Option<u64>,
    pub juld_location: Option<u64>,
    pub latitude: Option<i64>,
    pub longitude: Option<i64>,
}

/// One assembled per-profile record, immutable after assembly and keyed by
/// `{file_stem}_{profile_index}`. Per-level numeric readings are IEEE 754
/// double bit patterns; the descriptive platform fields live in the
/// referenced metadata record instead.
pub struct ProfileRecord {
    pub id: String,
    pub geolocation: GeoPoint,
    pub cycle_number: i32,
    pub direction: String,
    pub data_state_indicator: String,
    pub data_mode: String,
    pub date_creation: String,
    pub date_update: String,
    pub dc_reference: String,
    pub juld: u64,
    pub juld_qc: String,
    pub juld_location: u64,
    pub position_qc: String,
    pub vertical_sampling_scheme: String,
    pub config_mission_number: i32,
    pub station_parameters: Vec<String>,
    pub realtime_data: Vec<(String, Vec<u64>)>,
    pub adjusted_data: Vec<(String, Vec<u64>)>,
    pub level_qc: Vec<(String, Vec<String>)>,
    pub adjusted_level_qc: Vec<(String, Vec<String>)>,
    pub data_info: Vec<(String, DataInfo)>,
    pub metadata_id: String,
}

/// The names of the declared parameters, in order.
pub open spec fn param_names(params: Seq<ParamInput>) -> Seq<Seq<char>> {
    Seq::new(params.len(), |i: int| params[i].name@)
}

/// The model of a stored data-info entry.
pub open spec fn data_info_model(d: DataInfo) -> (Seq<char>, Seq<char>, Seq<char>, Seq<char>) {
    (d.data_mode@, d.units@, d.long_name@, d.profile_parameter_qc@)
}

/// The data-info fields a parameter contributes: all empty for an absent
/// variable or an excluded diagnostic name, else its mode, attributes and
/// whole-profile QC flag (each absent attribute as empty text).
pub open spec fn expected_data_info(p: ParamInput, mode: Seq<char>) -> (
    Seq<char>,
    Seq<char>,
    Seq<char>,
    Seq<char>,
) {
    if !p.present || p.name@ == "NB_SAMPLE_CTD"@ {
        (Seq::empty(), Seq::empty(), Seq::empty(), Seq::empty())
    } else {
        (mode, opt_string_view(p.units), opt_string_view(p.long_name), unpacked_view(
            p.profile_qc_raw,
        ))
    }
}

/// The data-info table of a profile: one entry per named parameter, in
/// order; parameters without a name are left out.
pub open spec fn data_info_table_model(
    params: Seq<ParamInput>,
    modes: Seq<Seq<char>>,
    dm: Seq<char>,
) -> Seq<(Seq<char>, (Seq<char>, Seq<char>, Seq<char>, Seq<char>))>
    decreases params.len(),
{
    if params.len() == 0 {
        Seq::empty()
    } else if params.last().name@.len() > 0 {
        data_info_table_model(params.drop_last(), modes, dm) + seq![
            (
                params.last().name@,
                expected_data_info(params.last(), mode_for(modes, dm, params.len() - 1)),
            ),
        ]
    } else {
        data_info_table_model(params.drop_last(), modes, dm)
    }
}

/// The model of a stored data-info table.
pub open spec fn data_info_vec_model(t: Seq<(String, DataInfo)>) -> Seq<
    (Seq<char>, (Seq<char>, Seq<char>, Seq<char>, Seq<char>)),
> {
    Seq::new(t.len(), |i: int| (t[i].0@, data_info_model(t[i].1)))
}

/// Assembles the data-info table of a profile.
pub fn build_data_info(params: &Vec<ParamInput>, modes: &Vec<String>, data_mode: &String) -> (r:
    Vec<(String, DataInfo)>)
    ensures
        data_info_vec_model(r@) == data_info_table_model(
            params@,
            modes_of(modes@),
            data_mode@,
        ),
{
    let ghost pm = params@;
    let ghost mm = modes_of(modes@);
    let ghost dm = data_mode@;
    let n = params.len();
    let mut out: Vec<(String, DataInfo)> = Vec::new();
    let mut i: usize = 0;
    proof {
        assert(data_info_vec_model(out@) =~= data_info_table_model(pm.take(0), mm, dm));
    }
    while i < n
        invariant
            0 <= i <= n,
            n == pm.len(),
            pm == params@,
            mm == modes_of(modes@),
            dm == data_mode@,
            data_info_vec_model(out@) == data_info_table_model(pm.take(i as int), mm, dm),
        decreases n - i,
    {
        let ghost ii = i as int;
        let ghost prev = data_info_vec_model(out@);
        proof {
            assert(pm.take(ii + 1).drop_last() =~= pm.take(ii));
            assert(pm.take(ii + 1).last() == pm[ii]);
        }
        let p = &params[i];
        if !p.name.as_str().is_empty() {
            let mode: &String = if i < modes.len() {
                &modes[i]
            } else {
                data_mode
            };
            proof {
                assert(mode@ == mode_for(mm, dm, ii));
            }
            let excluded = !p.present || p.name.eq(&String::from_str("NB_SAMPLE_CTD"));
            let d = if excluded {
                DataInfo {
                    data_mode: String::new(),
                    units: String::new(),
                    long_name: String::new(),
                    profile_parameter_qc: String::new(),
                }
            } else {
                DataInfo {
                    data_mode: mode.clone(),
                    units: opt_string_or_empty(&p.units),
                    long_name: opt_string_or_empty(&p.long_name),
                    profile_parameter_qc: unpack_text(&p.profile_qc_raw),
                }
            };
            proof {
                assert(data_info_model(d) == expected_data_info(pm[ii], mode_for(mm, dm, ii)));
            }
            let ghost out0 = out@;
            out.push((p.name.clone(), d));
            proof {
                assert(data_info_vec_model(out@) =~= prev + seq![
                    (pm[ii].name@, expected_data_info(pm[ii], mode_for(mm, dm, ii))),
                ]);
            }
        }
        i = i + 1;
    }
    proof {
        assert(pm.take(n as int) =~= pm);
    }
    out
}

/// The metadata candidate a profile contributes: its descriptive fields,
/// decoded, with the joined investigator names split on commas.
pub open spec fn meta_candidate_model(inputs: ProfileInputs) -> MetadataModel {
    MetadataModel {
        platform_number: unpacked_view(inputs.platform_number_raw),
        data_type: unpacked_view(inputs.data_type_raw),
        format_version: unpacked_view(inputs.format_version_raw),
        handbook_version: unpacked_view(inputs.handbook_version_raw),
        reference_date_time: unpacked_view(inputs.reference_date_time_raw),
        project_name: unpacked_view(inputs.project_name_raw),
        pi_name: split_pieces_model(unpacked_view(inputs.pi_name_raw), ','),
        data_centre: unpacked_view(inputs.data_centre_raw),
        platform_type: unpacked_view(inputs.platform_type_raw),
        float_serial_no: unpacked_view(inputs.float_serial_no_raw),
        firmware_version: unpacked_view(inputs.firmware_version_raw),
        wmo_inst_type: unpacked_view(inputs.wmo_inst_type_raw),
        positioning_system: unpacked_view(inputs.positioning_system_raw),
    }
}

/// Assembles one profile record from the values the file reader supplied,
/// resolving its metadata id against the run's registry.
///
/// Every field is pinned: the id is `{file_stem}_{profile_index}`; missing
/// scalar fields take their documented sentinels; the geolocation follows
/// the fallback and normalization rules; the four per-level tables are
/// consistency-enforced; and the metadata id is the registry's answer for
/// this profile's descriptive fields.
pub fn build_profile_record(
    file_stem: &String,
    index: u64,
    inputs: ProfileInputs,
    params: &Vec<ParamInput>,
    registry: &mut MetadataRegistry,
) -> (r: ProfileRecord)
    ensures
        r.id@ == profile_id_view(file_stem@, index as nat),
        r.geolocation == geolocation_spec(inputs.latitude, inputs.longitude),
        r.cycle_number == (if inputs.cycle_number is Some {
            inputs.cycle_number->0
        } else {
            INT_SENTINEL
        }),
        r.config_mission_number == (if inputs.config_mission_number is Some {
            inputs.config_mission_number->0
        } else {
            INT_SENTINEL
        }),
        r.juld == (if inputs.juld is Some {
            inputs.juld->0
        } else {
            JULD_FILL_BITS
        }),
        r.juld_location == (if inputs.juld_location is Some {
            inputs.juld_location->0
        } else {
            JULD_FILL_BITS
        }),
        r.direction@ == unpacked_view(inputs.direction_raw),
        r.data_state_indicator@ == unpacked_view(inputs.data_state_indicator_raw),
        r.data_mode@ == unpacked_view(inputs.data_mode_raw),
        r.date_creation@ == unpacked_view(inputs.date_creation_raw),
        r.date_update@ == unpacked_view(inputs.date_update_raw),
        r.dc_reference@ == unpacked_view(inputs.dc_reference_raw),
        r.juld_qc@ == unpacked_view(inputs.juld_qc_raw),
        r.position_qc@ == unpacked_view(inputs.position_qc_raw),
        r.vertical_sampling_scheme@ == unpacked_view(inputs.vertical_sampling_scheme_raw),
        r.station_parameters@.len() == params@.len(),
        forall|i: int|
            0 <= i < params@.len() ==> r.station_parameters@[i]@ == param_names(params@)[i],
        num_model(r.realtime_data@) == enforce_num_spec(
            realtime_table_model(params@),
            tables_max(
                params@,
                modes_model(inputs.parameter_data_mode_raw),
                unpacked_view(inputs.data_mode_raw),
            ),
        ),
        num_model(r.adjusted_data@) == enforce_num_spec(
            adjusted_table_model(
                params@,
                modes_model(inputs.parameter_data_mode_raw),
                unpacked_view(inputs.data_mode_raw),
            ),
            tables_max(
                params@,
                modes_model(inputs.parameter_data_mode_raw),
                unpacked_view(inputs.data_mode_raw),
            ),
        ),
        qc_model(r.level_qc@) == enforce_qc_spec(
            qc_table_model(params@),
            tables_max(
                params@,
                modes_model(inputs.parameter_data_mode_raw),
                unpacked_view(inputs.data_mode_raw),
            ),
        ),
        qc_model(r.adjusted_level_qc@) == enforce_qc_spec(
            adjusted_qc_table_model(
                params@,
                modes_model(inputs.parameter_data_mode_raw),
                unpacked_view(inputs.data_mode_raw),
            ),
            tables_max(
                params@,
                modes_model(inputs.parameter_data_mode_raw),
                unpacked_view(inputs.data_mode_raw),
            ),
        ),
        data_info_vec_model(r.data_info@) == data_info_table_model(
            params@,
            modes_model(inputs.parameter_data_mode_raw),
            unpacked_view(inputs.data_mode_raw),
        ),
        r.metadata_id@ == resolve_spec(
            registry_model(old(registry).entries@),
            meta_candidate_model(inputs),
        ).0,
        registry_model(final(registry).entries@) == resolve_spec(
            registry_model(old(registry).entries@),
            meta_candidate_model(inputs),
        ).1,
{
    let id = profile_record_id(file_stem, index);
    let geolocation = resolve_geolocation(inputs.latitude, inputs.longitude);
    let cycle_number = match inputs.cycle_number {
        Some(v) => v,
        None => INT_SENTINEL,
    };
    let config_mission_number = match inputs.config_mission_number {
        Some(v) => v,
        None => INT_SENTINEL,
    };
    let juld = match inputs.juld {
        Some(v) => v,
        None => JULD_FILL_BITS,
    };
    let juld_location = match inputs.juld_location {
        Some(v) => v,
        None => JULD_FILL_BITS,
    };
    let data_mode = unpack_text(&inputs.data_mode_raw);
    let modes = decode_param_modes(&inputs.parameter_data_mode_raw);
    proof {
        assert(modes_of(modes@) =~= modes_model(inputs.parameter_data_mode_raw));
    }
    let (realtime_data, adjusted_data, level_qc, adjusted_level_qc) = build_level_tables(
        params,
        &modes,
        &data_mode,
    );
    let data_info = build_data_info(params, &modes, &data_mode);
    let n = params.len();
    let mut station_parameters: Vec<String> = Vec::new();
    let mut i: usize = 0;
    while i < n
        invariant
            0 <= i <= n,
            n == params@.len(),
            station_parameters@.len() == i,
            forall|j: int|
                0 <= j < i ==> (#[trigger] station_parameters@[j])@ == params@[j].name@,
        decreases n - i,
    {
        station_parameters.push(params[i].name.clone());
        i = i + 1;
    }
    let pi_string = unpack_text(&inputs.pi_name_raw);
    let pi_name = crate::text::split_string(pi_string, ',');
    let candidate = MetadataRecord {
        platform_number: unpack_text(&inputs.platform_number_raw),
        data_type: unpack_text(&inputs.data_type_raw),
        format_version: unpack_text(&inputs.format_version_raw),
        handbook_version: unpack_text(&inputs.handbook_version_raw),
        reference_date_time: unpack_text(&inputs.reference_date_time_raw),
        project_name: unpack_text(&inputs.project_name_raw),
        pi_name,
        data_centre: unpack_text(&inputs.data_centre_raw),
        platform_type: unpack_text(&inputs.platform_type_raw),
        float_serial_no: unpack_text(&inputs.float_serial_no_raw),
        firmware_version: unpack_text(&inputs.firmware_version_raw),
        wmo_inst_type: unpack_text(&inputs.wmo_inst_type_raw),
        positioning_system: unpack_text(&inputs.positioning_system_raw),
    };
    proof {
        assert(candidate.model().pi_name =~= meta_candidate_model(inputs).pi_name);
        assert(candidate.model() == meta_candidate_model(inputs));
    }
    let metadata_id = registry.resolve(candidate);
    ProfileRecord {
        id,
        geolocation,
        cycle_number,
        direction: unpack_text(&inputs.direction_raw),
        data_state_indicator: unpack_text(&inputs.data_state_indicator_raw),
        data_mode,
        date_creation: unpack_text(&inputs.date_creation_raw),
        date_update: unpack_text(&inputs.date_update_raw),
        dc_reference: unpack_text(&inputs.dc_reference_raw),
        juld,
        juld_qc: unpack_text(&inputs.juld_qc_raw),
        juld_location,
        position_qc: unpack_text(&inputs.position_qc_raw),
        vertical_sampling_scheme: unpack_text(&inputs.vertical_sampling_scheme_raw),
        config_mission_number,
        station_parameters,
        realtime_data,
        adjusted_data,
        level_qc,
        adjusted_level_qc,
        data_info,
        metadata_id,
    }
}

} // verus!
