//! Runtime reflection and dynamic dispatch over type-tagged values.
//!
//! - `value`: type keys, numbers and type-tagged values
//! - `numbers`: numeric conversions and reading numbers from text
//! - `conversions`: the table of scored conversion rules, and scoring, matching and
//!   converting argument lists against parameter lists
//! - `parts`: callable descriptors (constructors, methods, static functions)
//! - `types`: the per-type descriptor and its `create` / `call` / `callstatic`
//! - `registration`: the name-keyed directory of reflected types
//! - `lexer`, `parser`, `literals`: constructor expressions, their trees, and the object
//!   graphs they build
//! - `messages`: errors as text
//! - `text`: small text helpers for type and identifier names

mod value;
mod numbers;
mod text;
mod conversions;
mod parts;
mod types;
mod registration;
mod lexer;
mod parser;
mod literals;
mod messages;

pub use value::{Decimal, NumKind, Number, TypeKey, Value, ValueView};
pub use numbers::{number_to_kind, parse_decimal, parse_integer};
pub use conversions::{
    ConversionTable, Conversions, Converter, EQUIVALENT, apply_converter, lemma_baseline_self_conversion,
    lemma_identity_round_trip, lemma_no_positive_no_match, lemma_numeric_round_trip, lemma_score_monotone,
    lemma_single_positive_match,
};
pub use parts::{Callable, Constructor, Function, FunctionType, Method, StaticFunction};
pub use types::{
    ErrorView, ReflectError, TypeInfo, Unfit, lemma_int_vector_as_decimal_view, lemma_text_as_tag, prepare_arguments,
};
pub use registration::{Registry, find_type, register_constructor, register_function, register_method};
pub use lexer::{TokKind, Token, tokenize};
pub use literals::{lemma_list_rule, list_literal, number_literal};
pub use parser::{CTorParser, Node, NodeKind, Tree, node_value};
pub use text::{camel_case_with, to_camel_case, type_shortname};
