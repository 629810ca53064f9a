use crate::dims::DimensionInfo;
use crate::errors::RuNeVisError;
use crate::materialize::Attribute;
use crate::shape::{checked_shape_size, shape_size};
use crate::text::{contains_spec, contains_text};
use vstd::prelude::*;

verus! {

/// Description of a variable of a dataset.
#[derive(Debug, Clone)]
pub struct VariableMetadata {
    pub name: String,
    pub data_type: String,
    pub dimensions: Vec<DimensionInfo>,
    pub attributes: Vec<Attribute>,
    pub total_elements: usize,
    pub estimated_size_bytes: usize,
}

/// Bytes per element guessed from a lower-case type name.
pub open spec fn element_size_spec(t: Seq<char>) -> nat {
    if contains_spec(t, "double"@) {
        8
    } else if contains_spec(t, "float"@) {
        4
    } else if contains_spec(t, "int"@) {
        4
    } else if contains_spec(t, "short"@) {
        2
    } else {
        4
    }
}

/// Bytes per element guessed from a lower-case type name: 8 for doubles,
/// 4 for floats and 32-bit integers, 2 for shorts, 4 otherwise.
pub fn element_size(data_type: &str) -> (r: usize)
    ensures
        r == element_size_spec(data_type@),
{
    if contains_text(data_type, "double") {
        8
    } else if contains_text(data_type, "float") {
        4
    } else if contains_text(data_type, "int") {
        4
    } else if contains_text(data_type, "short") {
        2
    } else {
        4
    }
}

/// Describes the variable `name` of type `data_type` (lower case) with its
/// dimensions and attributes: the element count is the product of the
/// dimension lengths and the size estimate that count times the element
/// size. Fails with `Generic` when either does not fit in `usize`.
pub fn get_variable_metadata(
    name: &str,
    data_type: String,
    dimensions: Vec<DimensionInfo>,
    attributes: Vec<Attribute>,
) -> (r: Result<VariableMetadata, RuNeVisError>)
    ensures
        ({
            let total = shape_size(dimensions@.map_values(|d: DimensionInfo| d.length));
            &&& r is Ok <==> total * element_size_spec(data_type@) <= usize::MAX
            &&& r matches Ok(m) ==> {
                &&& m.name@ == name@
                &&& m.data_type == data_type
                &&& m.dimensions == dimensions
                &&& m.attributes == attributes
                &&& m.total_elements == total
                &&& m.estimated_size_bytes == total * element_size_spec(data_type@)
            }
            &&& r matches Err(e) ==> e is Generic
        }),
{
    let mut shape: Vec<usize> = Vec::new();
    let mut i: usize = 0;
    while i < dimensions.len()
        invariant
            0 <= i <= dimensions@.len(),
            shape@ =~= dimensions@.map_values(|d: DimensionInfo| d.length).take(i as int),
        decreases dimensions@.len() - i,
    {
        shape.push(dimensions[i].length);
        i = i + 1;
    }
    proof {
        let lens = dimensions@.map_values(|d: DimensionInfo| d.length);
        assert(lens.take(lens.len() as int) =~= lens);
    }
    let size = element_size(data_type.as_str());
    let total = match checked_shape_size(&shape) {
        Some(t) => t,
        None => {
            proof {
                let t = shape_size(shape@);
                assert(t * size > usize::MAX) by (nonlinear_arith)
                    requires
                        t > usize::MAX,
                        size >= 2,
                ;
            }
            return Err(RuNeVisError::Generic(String::from_str("variable is too large to describe")));
        },
    };
    let bytes = match total.checked_mul(size) {
        Some(b) => b,
        None => {
            return Err(RuNeVisError::Generic(String::from_str("variable is too large to describe")));
        },
    };
    Ok(
        VariableMetadata {
            name: String::from_str(name),
            data_type,
            dimensions,
            attributes,
            total_elements: total,
            estimated_size_bytes: bytes,
        },
    )
}

} // verus!
