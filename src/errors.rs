use vstd::prelude::*;

verus! {

/// Errors of the library.
#[derive(Debug, Clone)]
pub enum RuNeVisError {
    /// The dataset has no variable of that name.
    VariableNotFound { var: String },
    /// The variable has no dimension of that name.
    DimensionNotFound { var: String, dim: String },
    /// An axis index is not below the rank of the array.
    AxisOutOfBounds { axis: usize, ndim: usize },
    /// A flat buffer's length differs from the element count of its shape.
    ShapeMismatch { data_len: usize },
    /// A slice request is malformed or out of range.
    InvalidSlice { message: String },
    /// The dataset store failed to read or write.
    IoError(String),
    /// The worker pool could not be configured.
    ThreadPoolError(String),
    /// Any other failure, with its message.
    Generic(String),
}

/// The text that describes an error to a user.
pub open spec fn message_spec(e: RuNeVisError) -> Seq<char> {
    match e {
        RuNeVisError::VariableNotFound { var } => "Variable '"@ + var@ + "' not found in file"@,
        RuNeVisError::DimensionNotFound { var, dim } => "Dimension '"@ + dim@
            + "' not found in variable '"@ + var@ + "'"@,
        RuNeVisError::AxisOutOfBounds { .. } => "Axis is out of bounds for the array"@,
        RuNeVisError::ShapeMismatch { .. } => "Data length does not match the shape"@,
        RuNeVisError::InvalidSlice { message } => "Invalid slice specification: "@ + message@,
        RuNeVisError::IoError(m) => "I/O error: "@ + m@,
        RuNeVisError::ThreadPoolError(m) => "Thread pool error: "@ + m@,
        RuNeVisError::Generic(m) => m@,
    }
}

impl RuNeVisError {
    /// The text that describes the error to a user.
    pub fn message(&self) -> (r: String)
        ensures
            r@ == message_spec(*self),
    {
        match self {
            RuNeVisError::VariableNotFound { var } => {
                let mut s = String::from_str("Variable '");
                s.append(var.as_str());
                s.append("' not found in file");
                s
            },
            RuNeVisError::DimensionNotFound { var, dim } => {
                let mut s = String::from_str("Dimension '");
                s.append(dim.as_str());
                s.append("' not found in variable '");
                s.append(var.as_str());
                s.append("'");
                s
            },
            RuNeVisError::AxisOutOfBounds { .. } => String::from_str(
                "Axis is out of bounds for the array",
            ),
            RuNeVisError::ShapeMismatch { .. } => String::from_str(
                "Data length does not match the shape",
            ),
            RuNeVisError::InvalidSlice { message } => {
                let mut s = String::from_str("Invalid slice specification: ");
                s.append(message.as_str());
                s
            },
            RuNeVisError::IoError(m) => {
                let mut s = String::from_str("I/O error: ");
                s.append(m.as_str());
                s
            },
            RuNeVisError::ThreadPoolError(m) => {
                let mut s = String::from_str("Thread pool error: ");
                s.append(m.as_str());
                s
            },
            RuNeVisError::Generic(m) => String::from_str(m.as_str()),
        }
    }
}

} // verus!
