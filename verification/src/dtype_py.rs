use vstd::prelude::*;
use vstd::string::*;

use crate::types::{same_text, Dtype};

verus! {

/// An element kind as the scripting side holds it.
#[derive(Debug, Clone, Copy)]
pub struct DtypePy {
    pub dtype: Dtype,
}

/// The message for a text that names no element kind.
pub open spec fn unknown_dtype_message(name: Seq<char>) -> Seq<char> {
    "Cannot convert type "@ + name + " into DtypePy "@
}

impl DtypePy {
    /// The element kind as the scripting side holds it.
    pub fn new(value: Dtype) -> (held: Self)
        ensures
            held.dtype == value,
    {
        Self { dtype: value }
    }

    /// The element kind that one of the scripting side's own type names
    /// stands for: `bool`, `float` for 32-bit floats, `int` for 32-bit
    /// integers.
    pub open spec fn spec_from_type_name(name: Seq<char>) -> Option<Dtype> {
        if name == "bool"@ {
            Some(Dtype::Bool)
        } else if name == "float"@ {
            Some(Dtype::Float32)
        } else if name == "int"@ {
            Some(Dtype::Int32)
        } else {
            None
        }
    }

    /// The element kind that one of the scripting side's own type names
    /// stands for, or a message that shows the name.
    pub fn from_type_name(value: &str) -> (res: Result<Self, String>)
        ensures
            match res {
                Ok(held) => Self::spec_from_type_name(value@) == Some(held.dtype),
                Err(message) => Self::spec_from_type_name(value@) is None && message@
                    == unknown_dtype_message(value@),
            },
    {
        if same_text(value, "bool") {
            Ok(DtypePy { dtype: Dtype::Bool })
        } else if same_text(value, "float") {
            Ok(DtypePy { dtype: Dtype::Float32 })
        } else if same_text(value, "int") {
            Ok(DtypePy { dtype: Dtype::Int32 })
        } else {
            let mut message = String::from_str("Cannot convert type ");
            message.append(value);
            message.append(" into DtypePy ");
            Err(message)
        }
    }
}

impl From<DtypePy> for Dtype {
    fn from(value: DtypePy) -> (dtype: Self) {
        value.dtype
    }
}

impl vstd::std_specs::convert::FromSpecImpl<DtypePy> for Dtype {
    open spec fn obeys_from_spec() -> bool {
        true
    }

    open spec fn from_spec(value: DtypePy) -> Self {
        value.dtype
    }
}

impl From<Dtype> for DtypePy {
    fn from(value: Dtype) -> (held: Self) {
        DtypePy { dtype: value }
    }
}

impl vstd::std_specs::convert::FromSpecImpl<Dtype> for DtypePy {
    open spec fn obeys_from_spec() -> bool {
        true
    }

    open spec fn from_spec(value: Dtype) -> Self {
        DtypePy { dtype: value }
    }
}

} // verus!
