//! Values of WebAssembly as they cross the command line.

use vstd::prelude::*;

verus! {

/// The type of a parameter of a function.
#[derive(Clone, Copy, Debug, PartialEq, Eq, Structural)]
pub enum ValType {
    I32,
    I64,
    F32,
    F64,
    V128,
    FuncRef,
    ExternRef,
}

/// The name under which a type is reported.
pub open spec fn val_type_text(ty: ValType) -> Seq<char> {
    match ty {
        ValType::I32 => "I32"@,
        ValType::I64 => "I64"@,
        ValType::F32 => "F32"@,
        ValType::F64 => "F64"@,
        ValType::V128 => "V128"@,
        ValType::FuncRef => "FuncRef"@,
        ValType::ExternRef => "ExternRef"@,
    }
}

impl ValType {
    /// The name under which the type is reported.
    pub fn name(self) -> (r: String)
        ensures
            r@ == val_type_text(self),
    {
        match self {
            ValType::I32 => "I32".to_owned(),
            ValType::I64 => "I64".to_owned(),
            ValType::F32 => "F32".to_owned(),
            ValType::F64 => "F64".to_owned(),
            ValType::V128 => "V128".to_owned(),
            ValType::FuncRef => "FuncRef".to_owned(),
            ValType::ExternRef => "ExternRef".to_owned(),
        }
    }
}

/// A value handed to a function or returned by one. Floating point numbers
/// are their bits; of a reference only its kind is kept.
#[derive(Clone, Copy, Debug, PartialEq, Eq, Structural)]
pub enum Val {
    I32(i32),
    I64(i64),
    F32(u32),
    F64(u64),
    V128(u128),
    FuncRef,
    ExternRef,
}

/// Every type is reported under a name of its own.
pub proof fn law_types_have_their_own_names(a: ValType, b: ValType)
    ensures
        val_type_text(a) == val_type_text(b) ==> a == b,
{
    reveal_strlit("I32");
    reveal_strlit("I64");
    reveal_strlit("F32");
    reveal_strlit("F64");
    reveal_strlit("V128");
    reveal_strlit("FuncRef");
    reveal_strlit("ExternRef");
    let s = val_type_text(a);
    let t = val_type_text(b);
    if s == t {
        assert(s.len() == t.len());
        assert(s[0] == t[0] && s[1] == t[1]);
    }
}

} // verus!
