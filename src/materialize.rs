use crate::dims::{first_match, resolve_axis, texts};
use vstd::prelude::*;

verus! {

/// Value of a variable attribute. Floating-point values are held as their
/// IEEE 754 bit patterns.
#[derive(Debug, Clone)]
pub enum AttributeValue {
    Uchar(u8),
    Uchars(Vec<u8>),
    Schar(i8),
    Schars(Vec<i8>),
    Ushort(u16),
    Ushorts(Vec<u16>),
    Short(i16),
    Shorts(Vec<i16>),
    Uint(u32),
    Uints(Vec<u32>),
    Int(i32),
    Ints(Vec<i32>),
    Ulonglong(u64),
    Ulonglongs(Vec<u64>),
    Longlong(i64),
    Longlongs(Vec<i64>),
    /// A 32-bit float, by its bits.
    Float(u32),
    /// 32-bit floats, by their bits.
    Floats(Vec<u32>),
    /// A 64-bit float, by its bits.
    Double(u64),
    /// 64-bit floats, by their bits.
    Doubles(Vec<u64>),
    Str(String),
    Strs(Vec<String>),
}

/// A named attribute.
#[derive(Debug, Clone)]
pub struct Attribute {
    pub name: String,
    pub value: AttributeValue,
}

/// Name of the attribute that holds a variable's fill value.
pub const FILL_VALUE: &'static str = "_FillValue";

/// Kinds a result variable can carry: strings, 32/64-bit floats, 32-bit and
/// 16-bit signed integers, single or as lists.
pub open spec fn is_copyable(v: AttributeValue) -> bool {
    match v {
        AttributeValue::Str(_) | AttributeValue::Strs(_) | AttributeValue::Float(_)
        | AttributeValue::Floats(_) | AttributeValue::Double(_) | AttributeValue::Doubles(_)
        | AttributeValue::Int(_) | AttributeValue::Ints(_) | AttributeValue::Short(_)
        | AttributeValue::Shorts(_) => true,
        _ => false,
    }
}

/// Kinds of fill value that can be narrowed to a 32-bit float.
pub open spec fn is_fill_kind(v: AttributeValue) -> bool {
    match v {
        AttributeValue::Float(_) | AttributeValue::Double(_) | AttributeValue::Short(_) => true,
        _ => false,
    }
}

pub open spec fn attr_names(attrs: Seq<Attribute>) -> Seq<Seq<char>> {
    attrs.map_values(|a: Attribute| a.name@)
}

/// Index of the fill-value attribute that goes onto the result: the first
/// attribute named `_FillValue`, where its kind can be narrowed.
pub open spec fn fill_spec(attrs: Seq<Attribute>) -> Option<int> {
    match first_match(attr_names(attrs), FILL_VALUE@) {
        Some(i) => if is_fill_kind(attrs[i].value) {
            Some(i)
        } else {
            None
        },
        None => None,
    }
}

fn is_copyable_kind(v: &AttributeValue) -> (r: bool)
    ensures
        r == is_copyable(*v),
{
    match v {
        AttributeValue::Str(_) | AttributeValue::Strs(_) | AttributeValue::Float(_)
        | AttributeValue::Floats(_) | AttributeValue::Double(_) | AttributeValue::Doubles(_)
        | AttributeValue::Int(_) | AttributeValue::Ints(_) | AttributeValue::Short(_)
        | AttributeValue::Shorts(_) => true,
        _ => false,
    }
}

/// Index of the fill value to put on a result variable, if the source has a
/// usable one.
pub fn fill_value_index(attrs: &Vec<Attribute>) -> (r: Option<usize>)
    ensures
        r matches Some(i) ==> fill_spec(attrs@) == Some(i as int),
        r is None ==> fill_spec(attrs@) is None,
{
    let mut names: Vec<String> = Vec::new();
    let mut k: usize = 0;
    while k < attrs.len()
        invariant
            0 <= k <= attrs@.len(),
            names@.len() == k,
            forall|j: int| 0 <= j < k ==> (#[trigger] names@[j])@ == attrs@[j].name@,
        decreases attrs@.len() - k,
    {
        names.push(attrs[k].name.clone());
        k = k + 1;
    }
    proof {
        assert(texts(names@) =~= attr_names(attrs@));
    }
    match resolve_axis(&names, FILL_VALUE) {
        Some(i) => match attrs[i].value {
            AttributeValue::Float(_) | AttributeValue::Double(_) | AttributeValue::Short(_) => Some(i),
            _ => None,
        },
        None => None,
    }
}

/// `idx` lists, in increasing order, exactly the indices below `n` that
/// satisfy `p`.
pub open spec fn lists_exactly(idx: Seq<usize>, n: nat, p: spec_fn(int) -> bool) -> bool {
    &&& forall|k: int| 0 <= k < idx.len() ==> #[trigger] idx[k] < n && p(idx[k] as int)
    &&& forall|k: int, m: int| 0 <= k < m < idx.len() ==> idx[k] < idx[m]
    &&& forall|i: int| 0 <= i < n && #[trigger] p(i) ==> idx.contains(i as usize)
}

/// Attribute `i` is copied onto the result: it is not the fill value and
/// its kind is supported.
pub open spec fn copied_spec(attrs: Seq<Attribute>, i: int) -> bool {
    attrs[i].name@ != FILL_VALUE@ && is_copyable(attrs[i].value)
}

/// Attribute `i` is skipped with a warning: it is not the fill value and
/// its kind is not supported.
pub open spec fn skipped_spec(attrs: Seq<Attribute>, i: int) -> bool {
    attrs[i].name@ != FILL_VALUE@ && !is_copyable(attrs[i].value)
}

/// Splits the source attributes other than the fill value into those copied
/// verbatim onto a result variable and those skipped for their kind, each
/// list in the source's order.
pub fn partition_attributes(attrs: &Vec<Attribute>) -> (r: (Vec<usize>, Vec<usize>))
    ensures
        lists_exactly(r.0@, attrs@.len(), |i: int| copied_spec(attrs@, i)),
        lists_exactly(r.1@, attrs@.len(), |i: int| skipped_spec(attrs@, i)),
{
    let fill = String::from_str(FILL_VALUE);
    let mut copied: Vec<usize> = Vec::new();
    let mut skipped: Vec<usize> = Vec::new();
    let mut i: usize = 0;
    while i < attrs.len()
        invariant
            0 <= i <= attrs@.len(),
            fill@ == FILL_VALUE@,
            forall|k: int| 0 <= k < copied@.len() ==> #[trigger] copied@[k] < i && copied_spec(attrs@, copied@[k] as int),
            forall|k: int, m: int| 0 <= k < m < copied@.len() ==> copied@[k] < copied@[m],
            forall|j: int| 0 <= j < i && #[trigger] copied_spec(attrs@, j) ==> copied@.contains(j as usize),
            forall|k: int| 0 <= k < skipped@.len() ==> #[trigger] skipped@[k] < i && skipped_spec(attrs@, skipped@[k] as int),
            forall|k: int, m: int| 0 <= k < m < skipped@.len() ==> skipped@[k] < skipped@[m],
            forall|j: int| 0 <= j < i && #[trigger] skipped_spec(attrs@, j) ==> skipped@.contains(j as usize),
        decreases attrs@.len() - i,
    {
        if attrs[i].name != fill {
            if is_copyable_kind(&attrs[i].value) {
                let ghost before = copied@;
                copied.push(i);
                proof {
                    assert forall|j: int| 0 <= j <= i && #[trigger] copied_spec(attrs@, j) implies copied@.contains(j as usize) by {
                        if j < i {
                            assert(before.contains(j as usize));
                            let w = choose|w: int| 0 <= w < before.len() && before[w] == j as usize;
                            assert(copied@[w] == j as usize);
                        } else {
                            assert(copied@[copied@.len() - 1] == i);
                        }
                    }
                }
            } else {
                let ghost before = skipped@;
                skipped.push(i);
                proof {
                    assert forall|j: int| 0 <= j <= i && #[trigger] skipped_spec(attrs@, j) implies skipped@.contains(j as usize) by {
                        if j < i {
                            assert(before.contains(j as usize));
                            let w = choose|w: int| 0 <= w < before.len() && before[w] == j as usize;
                            assert(skipped@[w] == j as usize);
                        } else {
                            assert(skipped@[skipped@.len() - 1] == i);
                        }
                    }
                }
            }
        }
        i = i + 1;
    }
    (copied, skipped)
}

} // verus!

verus! {

/// Relies on `chrono::Utc::now` and `DateTime::to_rfc3339`: the current UTC
/// time in RFC 3339 form, a full date and time (at least
/// `YYYY-MM-DDTHH:MM:SS`) followed by the UTC offset written `+00:00`.
/// Which time it is depends on the clock.
#[verifier::external_body]
fn utc_now_rfc3339() -> (r: String)
    ensures
        is_utc_rfc3339_shape(r@),
{
    chrono::Utc::now().to_rfc3339()
}

/// The outline every UTC RFC 3339 timestamp has: at least 19 characters of
/// date and time, then the offset `+00:00`.
pub open spec fn is_utc_rfc3339_shape(t: Seq<char>) -> bool {
    t.len() >= 25 && t.subrange(t.len() - 6, t.len() as int) == "+00:00"@
}

/// Text of the dataset's provenance note for a given timestamp.
pub open spec fn history_spec(timestamp: Seq<char>) -> Seq<char> {
    "Created by RuNeVis on "@ + timestamp
}

/// The provenance note for a dataset written at `timestamp`.
pub fn history_note(timestamp: &str) -> (r: String)
    ensures
        r@ == history_spec(timestamp@),
{
    let mut s = String::from_str("Created by RuNeVis on ");
    s.append(timestamp);
    s
}

/// The provenance note for a dataset written now.
pub fn history_now() -> (r: String)
    ensures
        exists|timestamp: Seq<char>| is_utc_rfc3339_shape(timestamp) && r@ == history_spec(timestamp),
{
    let now = utc_now_rfc3339();
    history_note(now.as_str())
}

/// What writing a reduced variable into a new dataset consists of, in
/// order: remove any file at the path, add the dimensions, add the variable,
/// put the fill value (before the data), put the data, copy the attributes,
/// add the provenance note. Attribute entries are indices into the source
/// variable's attributes.
#[derive(Debug, Clone)]
pub struct WritePlan {
    pub output_path: String,
    pub dimensions: Vec<(String, usize)>,
    pub variable_name: String,
    pub fill_value: Option<usize>,
    pub copied_attributes: Vec<usize>,
    pub skipped_attributes: Vec<usize>,
    pub history: String,
}

/// Writes reduced variables into a new dataset next to the one they were
/// computed from.
pub struct NetCDFWriter<'a, F> {
    pub input_file: &'a F,
    pub output_path: &'a str,
}

impl<'a, F> NetCDFWriter<'a, F> {
    /// A writer from the dataset `input_file` to a new dataset at `output_path`.
    pub fn new(input_file: &'a F, output_path: &'a str) -> (r: Self)
        ensures
            r.input_file == input_file,
            r.output_path == output_path,
    {
        NetCDFWriter { input_file, output_path }
    }

    /// Plans the writing of a result variable named `var_name` with extents
    /// `shape` along the dimensions `dim_names`, whose source variable has
    /// the attributes `source_attributes`; `history` is the provenance note.
    /// Dimensions pair names and extents in order (as many as the shorter
    /// list has).
    pub fn plan_result(
        &self,
        shape: &Vec<usize>,
        dim_names: &Vec<String>,
        var_name: &str,
        source_attributes: &Vec<Attribute>,
        history: String,
    ) -> (r: WritePlan)
        ensures
            r.output_path@ == self.output_path@,
            r.variable_name@ == var_name@,
            r.dimensions@.len() == if shape@.len() < dim_names@.len() {
                shape@.len()
            } else {
                dim_names@.len()
            },
            forall|i: int|
                0 <= i < r.dimensions@.len() ==> (#[trigger] r.dimensions@[i]).0 == dim_names@[i]
                    && r.dimensions@[i].1 == shape@[i],
            r.fill_value matches Some(i) ==> fill_spec(source_attributes@) == Some(i as int),
            r.fill_value is None ==> fill_spec(source_attributes@) is None,
            lists_exactly(
                r.copied_attributes@,
                source_attributes@.len(),
                |i: int| copied_spec(source_attributes@, i),
            ),
            lists_exactly(
                r.skipped_attributes@,
                source_attributes@.len(),
                |i: int| skipped_spec(source_attributes@, i),
            ),
            r.history == history,
    {
        let mut dimensions: Vec<(String, usize)> = Vec::new();
        let mut i: usize = 0;
        while i < shape.len() && i < dim_names.len()
            invariant
                0 <= i <= shape@.len(),
                i <= dim_names@.len(),
                dimensions@.len() == i,
                forall|k: int|
                    0 <= k < i ==> (#[trigger] dimensions@[k]).0 == dim_names@[k] && dimensions@[k].1
                        == shape@[k],
            decreases shape@.len() - i,
        {
            dimensions.push((dim_names[i].clone(), shape[i]));
            i = i + 1;
        }
        let (copied, skipped) = partition_attributes(source_attributes);
        WritePlan {
            output_path: String::from_str(self.output_path),
            dimensions,
            variable_name: String::from_str(var_name),
            fill_value: fill_value_index(source_attributes),
            copied_attributes: copied,
            skipped_attributes: skipped,
            history,
        }
    }
}

} // verus!
