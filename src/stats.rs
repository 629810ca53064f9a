use crate::dims::{dimension_names, dimension_shape, first_match, kept_names, resolve_dimension, texts, DimensionInfo};
use crate::errors::RuNeVisError;
use crate::shape::NDArray;
use vstd::prelude::*;

verus! {

/// The four reductions.
#[derive(Debug, Clone, Copy, PartialEq, Eq, Structural)]
pub enum StatOperation {
    /// Arithmetic mean of the finite values.
    Mean,
    /// Sum of the finite values.
    Sum,
    /// Smallest finite value.
    Min,
    /// Largest finite value.
    Max,
}

/// The word naming an operation in derived variable names.
pub open spec fn op_name(op: StatOperation) -> Seq<char> {
    match op {
        StatOperation::Mean => "mean"@,
        StatOperation::Sum => "sum"@,
        StatOperation::Min => "minimum"@,
        StatOperation::Max => "maximum"@,
    }
}

/// Name of the variable that holds `op` of `var` over `dim`:
/// `{var}_{op}_over_{dim}`.
pub open spec fn derived_name_spec(var: Seq<char>, op: StatOperation, dim: Seq<char>) -> Seq<char> {
    var + "_"@ + op_name(op) + "_over_"@ + dim
}

impl StatOperation {
    /// The word naming the operation: "mean", "sum", "minimum" or "maximum".
    pub fn as_str(self) -> (r: &'static str)
        ensures
            r@ == op_name(self),
    {
        match self {
            StatOperation::Mean => "mean",
            StatOperation::Sum => "sum",
            StatOperation::Min => "minimum",
            StatOperation::Max => "maximum",
        }
    }
}

/// Name of the variable that holds `op` of `var_name` over `dim_name`.
pub fn derived_name(var_name: &str, op: StatOperation, dim_name: &str) -> (r: String)
    ensures
        r@ == derived_name_spec(var_name@, op, dim_name@),
{
    let mut s = String::from_str(var_name);
    s.append("_");
    s.append(op.as_str());
    s.append("_over_");
    s.append(dim_name);
    s
}

/// What a reduction needs, worked out from the variable's dimensions before
/// any data is read.
#[derive(Debug, Clone)]
pub struct ReductionPlan {
    /// Axis of the reduced dimension.
    pub axis: usize,
    /// Shape of the source variable.
    pub shape: Vec<usize>,
    /// Names of the dimensions that remain, in the order of the source variable.
    pub kept_dimensions: Vec<String>,
    /// Name of the variable that holds the result.
    pub derived_name: String,
}

/// Resolves a reduction of `var_name` (whose dimensions are `dims`) over
/// `dim_name`: the reduced axis is the first dimension of that name; the
/// kept names are the others in order; the result is named
/// `{var}_{op}_over_{dim}`. Fails with `DimensionNotFound` exactly when no
/// dimension has that name.
pub fn plan_reduction(
    var_name: &str,
    dims: &Vec<DimensionInfo>,
    dim_name: &str,
    op: StatOperation,
) -> (r: Result<ReductionPlan, RuNeVisError>)
    ensures
        r is Err <==> first_match(dim_texts(dims@), dim_name@) is None,
        r matches Err(e) ==> e matches RuNeVisError::DimensionNotFound { var, dim } && var@
            == var_name@ && dim@ == dim_name@,
        r matches Ok(p) ==> {
            &&& first_match(dim_texts(dims@), dim_name@) == Some(p.axis as int)
            &&& p.axis < dims@.len()
            &&& p.shape@ == dims@.map_values(|d: DimensionInfo| d.length)
            &&& p.kept_dimensions@.len() == dims@.len() - 1
            &&& texts(p.kept_dimensions@) == dim_texts(dims@).remove(p.axis as int)
            &&& p.derived_name@ == derived_name_spec(var_name@, op, dim_name@)
        },
{
    let names = dimension_names(dims);
    proof {
        assert(texts(names@) =~= dim_texts(dims@));
    }
    let axis = match resolve_dimension(var_name, &names, dim_name) {
        Ok(i) => i,
        Err(e) => {
            return Err(e);
        },
    };
    let shape = dimension_shape(dims);
    let kept = kept_names(&names, axis);
    proof {
        assert(shape@ =~= dims@.map_values(|d: DimensionInfo| d.length));
        assert(texts(kept@) =~= texts(names@).remove(axis as int));
        assert(texts(kept@) =~= dim_texts(dims@).remove(axis as int));
    }
    Ok(
        ReductionPlan {
            axis,
            shape,
            kept_dimensions: kept,
            derived_name: derived_name(var_name, op, dim_name),
        },
    )
}

/// The texts of the dimensions' names.
pub open spec fn dim_texts(dims: Seq<DimensionInfo>) -> Seq<Seq<char>> {
    dims.map_values(|d: DimensionInfo| d.name@)
}

/// A reduced array with what it came from.
#[derive(Debug)]
pub struct StatResult<T> {
    /// The reduced values.
    pub data: NDArray<T>,
    /// Names of the dimensions that remain, in the order of the source variable.
    pub remaining_dimensions: Vec<String>,
    /// The reduction that was applied.
    pub operation: StatOperation,
    /// Name of the source variable.
    pub variable_name: String,
    /// Name of the reduced dimension.
    pub dimension_name: String,
}

impl<T> StatResult<T> {
    /// Gathers a reduced array and its provenance.
    pub fn new(
        data: NDArray<T>,
        remaining_dimensions: Vec<String>,
        operation: StatOperation,
        variable_name: String,
        dimension_name: String,
    ) -> (r: Self)
        ensures
            r.data.shape_view() == data.shape_view(),
            r.data.data_view() == data.data_view(),
            r.remaining_dimensions == remaining_dimensions,
            r.operation == operation,
            r.variable_name == variable_name,
            r.dimension_name == dimension_name,
    {
        StatResult { data, remaining_dimensions, operation, variable_name, dimension_name }
    }

    /// Shape of the reduced array.
    pub fn shape(&self) -> (r: &Vec<usize>)
        ensures
            r@ == self.data.shape_view(),
    {
        self.data.shape()
    }

    /// Number of axes of the reduced array.
    pub fn ndim(&self) -> (r: usize)
        ensures
            r == self.data.shape_view().len(),
    {
        self.data.ndim()
    }

    /// Name of the variable that holds this result.
    pub fn derived_name(&self) -> (r: String)
        ensures
            r@ == derived_name_spec(self.variable_name@, self.operation, self.dimension_name@),
    {
        derived_name(self.variable_name.as_str(), self.operation, self.dimension_name.as_str())
    }
}

} // verus!
