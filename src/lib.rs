//! Reductions (mean, sum, minimum, maximum) of labelled multi-dimensional
//! arrays along a named dimension.
//!
//! The library holds the logic: the row-major shape model, the axis-fold
//! executor, the dimension resolver, slicing, naming of derived variables and
//! the attribute policy used when a result is written back to a dataset.
//! Element arithmetic is supplied by the caller as a kernel closure, so the
//! executor is generic over the element type.
mod args;
mod codec;
mod dims;
mod errors;
mod fold;
mod materialize;
mod metadata;
mod parallel;
mod shape;
mod slice;
mod stats;
mod text;

pub use args::{command_spec, select_command, Args, Command};
pub use codec::{
    coords_of, coords_to_flat, flat_of, flat_to_coords, in_bounds, lemma_coords_round_trip,
    lemma_coords_split, lemma_flat_concat, lemma_flat_in_range, lemma_flat_round_trip,
};
pub use dims::{
    dimension_names, dimension_shape, first_match, kept_names, resolve_axis, resolve_dimension,
    texts, DimensionInfo,
};
pub use errors::{message_spec, RuNeVisError};
pub use fold::{
    fold_axis, fold_axis_partitioned, fold_range, inner_size, is_fold_of, is_partition,
    is_range_fold_of, lane_coords, lane_index, lane_of, lemma_lane_index_is_offset,
    lemma_ranges_concat_to_fold, lane_start, lane_values, lemma_fold_deterministic, outer_size,
    partition_ranges, range_count, balanced_start, removed_axis, Lane,
};
pub use materialize::{
    copied_spec, fill_spec, fill_value_index, history_note, history_now, history_spec,
    is_copyable, is_fill_kind, is_utc_rfc3339_shape, lists_exactly, partition_attributes, skipped_spec, Attribute,
    AttributeValue, NetCDFWriter, WritePlan, FILL_VALUE,
};
pub use metadata::{element_size, element_size_spec, get_variable_metadata, VariableMetadata};
pub use parallel::{get_parallel_info, pool_setup_result, ParallelConfig, ParallelInfo, ParallelReduction};
pub use shape::{checked_shape_size, shape_size, NDArray};
pub use slice::{
    effective_range, effective_ranges, extract_slice, parse_mean_arg, parse_slice_arg,
    range_fits, request_fits, requested_range, resolve_slice_ranges, slice_array, slice_axis,
    lemma_slice_index_is_offset, slice_axis_spec, slice_coords, slice_source_index, sliced_data,
    sliced_shape, triple_spec, DimSlice, SliceSpec, FIRST_DIM,
};
pub use stats::{
    derived_name, derived_name_spec, dim_texts, op_name, plan_reduction, ReductionPlan,
    StatOperation, StatResult,
};
pub use text::{
    contains_spec, contains_text, decimal_value, parse_usize, parse_usize_spec, split_at_char,
    split_spec,
};
