//! Runtime type tags and their fully qualified names.

use vstd::prelude::*;
use vstd::string::StringExecFns;

verus! {

/// The runtime type of a value.
#[derive(Debug, Clone, Copy, PartialEq, Eq)]
pub enum TypeTag {
    I32,
    F64,
    Boolean,
    Symbol,
    Keyword,
    IFn,
    Condition,
    PersistentList,
    PersistentVector,
    PersistentListMap,
    /// Experimental: a macro may have no value at runtime.
    Macro,
    String,
    Integer,
    ISeq,
    Nil,
}

impl TypeTag {
    /// The fully qualified name printed for this tag.
    pub open spec fn spec_name(self) -> Seq<char> {
        match self {
            TypeTag::I32 => "rust.std.i32"@,
            TypeTag::Boolean => "rust.std.bool"@,
            TypeTag::F64 => "rust.std.f64"@,
            TypeTag::Symbol => "clojure.lang.Symbol"@,
            TypeTag::Keyword => "clojure.lang.Keyword"@,
            TypeTag::IFn => "clojure.lang.Function"@,
            TypeTag::Condition => "clojure.lang.Condition"@,
            TypeTag::PersistentList => "clojure.lang.PersistentList"@,
            TypeTag::PersistentVector => "clojure.lang.PersistentVector"@,
            TypeTag::PersistentListMap => "clojure.lang.PersistentListMap"@,
            TypeTag::Macro => "clojure.lang.Macro"@,
            TypeTag::String => "rust.std.string.String"@,
            TypeTag::Integer => "clojure.lang.Integer"@,
            TypeTag::ISeq => "clojure.lang.ISeq"@,
            TypeTag::Nil => "clojure.lang.Nil"@,
        }
    }

    /// Returns the fully qualified name of the tag, as shown to users.
    pub fn to_string(&self) -> (r: std::string::String)
        ensures
            r@ == self.spec_name(),
    {
        let s: &str = match self {
            TypeTag::I32 => "rust.std.i32",
            TypeTag::Boolean => "rust.std.bool",
            TypeTag::F64 => "rust.std.f64",
            TypeTag::Symbol => "clojure.lang.Symbol",
            TypeTag::Keyword => "clojure.lang.Keyword",
            TypeTag::IFn => "clojure.lang.Function",
            TypeTag::Condition => "clojure.lang.Condition",
            TypeTag::PersistentList => "clojure.lang.PersistentList",
            TypeTag::PersistentVector => "clojure.lang.PersistentVector",
            TypeTag::PersistentListMap => "clojure.lang.PersistentListMap",
            TypeTag::Macro => "clojure.lang.Macro",
            TypeTag::String => "rust.std.string.String",
            TypeTag::Integer => "clojure.lang.Integer",
            TypeTag::ISeq => "clojure.lang.ISeq",
            TypeTag::Nil => "clojure.lang.Nil",
        };
        std::string::String::from_str(s)
    }
}

} // verus!
