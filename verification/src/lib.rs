//! Decoding of multi-dimensional scientific data files into structured
//! values, and assembly of those values into per-profile records with
//! cross-field consistency guarantees.

use vstd::prelude::*;

mod chardecode;
mod dispatch;
mod error;
mod geo;
mod levels;
mod metadata;
mod profile;
mod reshape;
mod runplan;
mod text;
mod value;

pub use chardecode::{decode_text, is_label_dimension};
pub use dispatch::{decode_variable, StorageType};
pub use error::Error;
pub use geo::{normalize_longitude, resolve_geolocation, GeoPoint, DEGREE};
pub use levels::{
    enforce_level_consistency, lemma_level_arrays_aligned, truncate_trailing_empties,
    truncate_trailing_fills, FILL_VALUE_BITS,
};
pub use metadata::{
    lemma_metadata_ids_distinct, lemma_registry_distinct_platforms, lemma_resolve_preserves_wf,
    lemma_resolve_stable, metadata_record_id, profile_record_id, u64_to_decimal, MetadataRecord,
    MetadataRegistry,
};
pub use profile::{
    build_data_info, build_level_tables, build_profile_record, decode_param_modes, decode_qc_array,
    decode_station_parameters, unpack_text, wants_adjusted, DataInfo, ParamInput, ProfileInputs,
    ProfileRecord, INT_SENTINEL, JULD_FILL_BITS,
};
pub use reshape::{lemma_matches_shape_depth, reshape};
pub use runplan::{RunPlan, SinkAction};
pub use text::{split_string, trim_null_bytes};
pub use value::{Dimension, Leaf, LeafModel, Value};

verus! {

/// Checks that a required dimension is present: a file without it cannot be
/// decoded at all.
pub fn require_dimension(len: Option<usize>) -> (r: Result<usize, Error>)
    ensures
        r is Ok <==> len is Some,
        r matches Ok(n) ==> n == len->0,
        r matches Err(e) ==> e is SourceFormat,
{
    match len {
        Some(n) => Ok(n),
        None => Err(Error::SourceFormat),
    }
}

} // verus!
