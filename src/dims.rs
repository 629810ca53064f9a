use crate::errors::RuNeVisError;
use vstd::prelude::*;

verus! {

/// One axis of a variable: its name, its length, and whether the dataset
/// lets it grow.
#[derive(Debug, Clone)]
pub struct DimensionInfo {
    pub name: String,
    pub length: usize,
    pub is_unlimited: bool,
}

/// The texts of a list of names.
pub open spec fn texts(names: Seq<String>) -> Seq<Seq<char>> {
    names.map_values(|s: String| s@)
}

/// Index of the first name equal to `requested`, if any.
pub open spec fn first_match(names: Seq<Seq<char>>, requested: Seq<char>) -> Option<int> {
    if exists|i: int| 0 <= i < names.len() && names[i] == requested {
        Some(
            choose|i: int|
                0 <= i < names.len() && names[i] == requested && forall|j: int|
                    0 <= j < i ==> names[j] != requested,
        )
    } else {
        None
    }
}

/// The names of the dimensions, in axis order.
pub fn dimension_names(dims: &Vec<DimensionInfo>) -> (r: Vec<String>)
    ensures
        r@.len() == dims@.len(),
        forall|i: int| 0 <= i < dims@.len() ==> #[trigger] r@[i] == dims@[i].name,
{
    let mut r: Vec<String> = Vec::new();
    let mut i: usize = 0;
    while i < dims.len()
        invariant
            0 <= i <= dims@.len(),
            r@.len() == i,
            forall|k: int| 0 <= k < i ==> #[trigger] r@[k] == dims@[k].name,
        decreases dims@.len() - i,
    {
        r.push(dims[i].name.clone());
        i = i + 1;
    }
    r
}

/// The lengths of the dimensions, in axis order: the variable's shape.
pub fn dimension_shape(dims: &Vec<DimensionInfo>) -> (r: Vec<usize>)
    ensures
        r@.len() == dims@.len(),
        forall|i: int| 0 <= i < dims@.len() ==> #[trigger] r@[i] == dims@[i].length,
{
    let mut r: Vec<usize> = Vec::new();
    let mut i: usize = 0;
    while i < dims.len()
        invariant
            0 <= i <= dims@.len(),
            r@.len() == i,
            forall|k: int| 0 <= k < i ==> #[trigger] r@[k] == dims@[k].length,
        decreases dims@.len() - i,
    {
        r.push(dims[i].length);
        i = i + 1;
    }
    r
}

/// Position of the first name equal to `requested`, or `None`.
pub fn resolve_axis(names: &Vec<String>, requested: &str) -> (r: Option<usize>)
    ensures
        r matches Some(i) ==> i < names@.len() && names@[i as int]@ == requested@ && forall|j: int|
            0 <= j < i ==> (#[trigger] names@[j])@ != requested@,
        r is None ==> forall|j: int| 0 <= j < names@.len() ==> (#[trigger] names@[j])@ != requested@,
        r matches Some(i) ==> first_match(texts(names@), requested@) == Some(i as int),
        r is None ==> first_match(texts(names@), requested@) is None,
{
    let wanted = String::from_str(requested);
    let mut i: usize = 0;
    while i < names.len()
        invariant
            0 <= i <= names@.len(),
            wanted@ == requested@,
            forall|j: int| 0 <= j < i ==> (#[trigger] names@[j])@ != requested@,
        decreases names@.len() - i,
    {
        if names[i] == wanted {
            proof {
                let t = texts(names@);
                assert(t[i as int] == requested@);
                let c = choose|k: int|
                    0 <= k < t.len() && t[k] == requested@ && forall|j: int|
                        0 <= j < k ==> t[j] != requested@;
                if c < i {
                    assert(names@[c]@ != requested@);
                }
                if c > i {
                    assert(t[i as int] != requested@);
                }
            }
            return Some(i);
        }
        i = i + 1;
    }
    proof {
        let t = texts(names@);
        assert forall|k: int| 0 <= k < t.len() implies t[k] != requested@ by {
            assert(names@[k]@ != requested@);
        }
    }
    None
}

/// The names with the entry at `axis` removed, the others kept in order.
pub fn kept_names(names: &Vec<String>, axis: usize) -> (r: Vec<String>)
    requires
        axis < names@.len(),
    ensures
        r@ == names@.remove(axis as int),
{
    let mut r: Vec<String> = Vec::new();
    let mut k: usize = 0;
    while k < names.len()
        invariant
            0 <= k <= names@.len(),
            axis < names@.len(),
            k <= axis ==> r@ =~= names@.take(k as int),
            k > axis ==> r@ =~= names@.take(k as int).remove(axis as int),
        decreases names@.len() - k,
    {
        if k != axis {
            r.push(names[k].clone());
        }
        k = k + 1;
    }
    proof {
        assert(names@.take(names@.len() as int) =~= names@);
    }
    r
}

/// Axis of the dimension `dim_name` of variable `var_name`, whose dimensions
/// are named `names`; fails with `DimensionNotFound` when no dimension has
/// that name.
pub fn resolve_dimension(var_name: &str, names: &Vec<String>, dim_name: &str) -> (r: Result<
    usize,
    RuNeVisError,
>)
    ensures
        r matches Ok(i) ==> i < names@.len() && names@[i as int]@ == dim_name@,
        r matches Ok(i) ==> first_match(texts(names@), dim_name@) == Some(i as int),
        r is Err <==> first_match(texts(names@), dim_name@) is None,
        r matches Err(e) ==> e matches RuNeVisError::DimensionNotFound { var, dim } && var@
            == var_name@ && dim@ == dim_name@,
{
    match resolve_axis(names, dim_name) {
        Some(i) => Ok(i),
        None => Err(
            RuNeVisError::DimensionNotFound {
                var: String::from_str(var_name),
                dim: String::from_str(dim_name),
            },
        ),
    }
}

} // verus!
