use vstd::prelude::*;
use crate::conversions::{ConversionTable, Conversions, matching_spec};
use crate::value::{TypeKey, Value, ValueView, views, type_keys};

verus! {

/// The kinds of callable that a reflected type exposes.
#[derive(Clone, Copy, Debug, PartialEq, Eq, Structural)]
pub enum FunctionType {
    /// makes a new instance; takes no receiver
    Constructor,
    /// takes an instance as its receiver
    Method,
    /// belongs to the type and takes no receiver
    Static,
}

/// What dispatch needs to know of a callable: its name, parameter types and return type.
pub trait Function {
    spec fn name_spec(&self) -> Seq<char>;

    spec fn params_spec(&self) -> Seq<TypeKey>;

    spec fn return_spec(&self) -> TypeKey;

    /// The callable's name (`*` for a constructor).
    fn name(&self) -> (r: &str)
        ensures
            r@ == self.name_spec(),
    ;

    /// The types of its parameters, in order.
    fn arg_types(&self) -> (r: &[TypeKey])
        ensures
            r@ == self.params_spec(),
    ;

    /// The type of what it returns.
    fn return_type(&self) -> (r: TypeKey)
        ensures
            r == self.return_spec(),
    ;

    /// Whether the arguments fit the parameters without conversion (see `matching_spec`).
    fn matching(&self, table: &ConversionTable, args: &[Value]) -> (r: bool)
        ensures
            r == matching_spec(table@, self.params_spec(), type_keys(views(args@))),
    {
        Conversions::matching(table, self.arg_types(), args)
    }
}

/// The code behind a constructor, written by the user of the library: it builds an
/// instance from arguments of the declared parameter types.
pub trait Constructor: Fn(Vec<Value>) -> Result<Value, String> {
}

impl<F: Fn(Vec<Value>) -> Result<Value, String>> Constructor for F {
}

/// The code behind an instance method, written by the user of the library: it is called on
/// a receiver with arguments of the declared parameter types.
pub trait Method: Fn(&Value, Vec<Value>) -> Result<Value, String> {
}

impl<F: Fn(&Value, Vec<Value>) -> Result<Value, String>> Method for F {
}

/// The code behind a static function, written by the user of the library: it is called
/// with arguments of the declared parameter types.
pub trait StaticFunction: Fn(Vec<Value>) -> Result<Value, String> {
}

impl<F: Fn(Vec<Value>) -> Result<Value, String>> StaticFunction for F {
}

/// A callable descriptor: name, parameter types, return type, and the code to run.
pub struct Callable<B> {
    pub name: String,
    pub kind: FunctionType,
    pub params: Vec<TypeKey>,
    pub ret: TypeKey,
    pub body: B,
}

impl<B> Function for Callable<B> {
    open spec fn name_spec(&self) -> Seq<char> {
        self.name@
    }

    open spec fn params_spec(&self) -> Seq<TypeKey> {
        self.params@
    }

    open spec fn return_spec(&self) -> TypeKey {
        self.ret
    }

    fn name(&self) -> (r: &str) {
        self.name.as_str()
    }

    fn arg_types(&self) -> (r: &[TypeKey]) {
        self.params.as_slice()
    }

    fn return_type(&self) -> TypeKey {
        self.ret
    }
}

} // verus!
