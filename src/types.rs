use vstd::prelude::*;
use crate::conversions::{
    ConversionTable, Conversions, Converter, EQUIVALENT, baseline_rules, best_candidate,
    converted_args, converted_prefix, matching_spec, partial_score, rule_for, score_spec, tag_index,
};
use crate::numbers::{convert_items, int_value};
use crate::registration::Registry;
use crate::parts::{Callable, Constructor, Function, Method, StaticFunction};
use crate::value::{Decimal, NumKind, Number, TypeKey, Value, ValueView, views, type_keys};

verus! {

/// Why dispatch failed.
#[derive(Debug)]
pub enum ReflectError {
    /// malformed expression text, with the offending fragment
    Parse(String),
    /// no type of this name is registered; with the number of arguments it was given
    UnknownType(String, usize),
    /// no constructor of the named type fits this many arguments
    NoMatchingConstructor(String, usize),
    /// the type has no method of this name
    MethodNotFound(String),
    /// the type has no static function of this name
    FunctionNotFound(String),
    /// the named method does not fit the arguments
    NoMatchingMethod(String),
    /// the named static function does not fit the arguments
    NoMatchingFunction(String),
    /// the chosen callable fit by score, but an argument did not convert; with the name of
    /// the method or function (of the type, for a constructor) and the number of arguments
    ArgumentConversionFailure(String, usize),
    /// the callable itself failed, with its own message
    Invocation(String),
}

/// What a `ReflectError` holds, with its text seen as a sequence.
pub ghost enum ErrorView {
    Parse(Seq<char>),
    UnknownType(Seq<char>, usize),
    NoMatchingConstructor(Seq<char>, usize),
    MethodNotFound(Seq<char>),
    FunctionNotFound(Seq<char>),
    NoMatchingMethod(Seq<char>),
    NoMatchingFunction(Seq<char>),
    ArgumentConversionFailure(Seq<char>, usize),
    Invocation(Seq<char>),
}

impl View for ReflectError {
    type V = ErrorView;

    open spec fn view(&self) -> ErrorView {
        match self {
            ReflectError::Parse(s) => ErrorView::Parse(s@),
            ReflectError::UnknownType(s, n) => ErrorView::UnknownType(s@, *n),
            ReflectError::NoMatchingConstructor(s, n) => ErrorView::NoMatchingConstructor(s@, *n),
            ReflectError::MethodNotFound(s) => ErrorView::MethodNotFound(s@),
            ReflectError::FunctionNotFound(s) => ErrorView::FunctionNotFound(s@),
            ReflectError::NoMatchingMethod(s) => ErrorView::NoMatchingMethod(s@),
            ReflectError::NoMatchingFunction(s) => ErrorView::NoMatchingFunction(s@),
            ReflectError::ArgumentConversionFailure(s, n) => ErrorView::ArgumentConversionFailure(s@, *n),
            ReflectError::Invocation(s) => ErrorView::Invocation(s@),
        }
    }
}

/// What a callable's own result becomes: its value as is, its error as `Invocation`.
pub open spec fn passed_on(br: Result<Value, String>, r: Result<Value, ReflectError>) -> bool {
    match br {
        Ok(v) => r == Ok::<Value, ReflectError>(v),
        Err(e) => r == Err::<Value, ReflectError>(ReflectError::Invocation(e)),
    }
}

/// Why arguments could not be made to fit a parameter list.
#[derive(Clone, Copy, Debug, PartialEq, Eq, Structural)]
pub enum Unfit {
    /// they neither match nor score positively
    NoFit,
    /// they score positively, but some argument did not convert
    ConversionFailed,
}

/// The arguments a callable with parameters `params` is given: the arguments themselves
/// when they match, else their conversion when they score positively.
pub open spec fn prepared(m: Map<(TypeKey, TypeKey), Conversions>, params: Seq<TypeKey>, args: Seq<ValueView>) -> Result<Seq<ValueView>, Unfit> {
    if matching_spec(m, params, type_keys(args)) {
        Ok(args)
    } else if score_spec(m, params, type_keys(args)) > 0 {
        match converted_args(m, params, args) {
            Some(s) => Ok(s),
            None => Err(Unfit::ConversionFailed),
        }
    } else {
        Err(Unfit::NoFit)
    }
}

/// Makes arguments fit a parameter list (see `prepared`).
pub fn prepare_arguments(table: &ConversionTable, params: &[TypeKey], args: Vec<Value>) -> (r: Result<Vec<Value>, Unfit>)
    ensures
        match r {
            Ok(v) => prepared(table@, params@, views(args@)) == Ok::<Seq<ValueView>, Unfit>(views(v@)),
            Err(e) => prepared(table@, params@, views(args@)) == Err::<Seq<ValueView>, Unfit>(e),
        },
{
    if Conversions::matching(table, params, args.as_slice()) {
        Ok(args)
    } else if Conversions::score(table, params, args.as_slice()) > 0 {
        match Conversions::convert_argv(table, params, args) {
            Some(v) => Ok(v),
            None => Err(Unfit::ConversionFailed),
        }
    } else {
        Err(Unfit::NoFit)
    }
}

/// The last position in `s` of a callable named `name`.
pub open spec fn last_named<B>(s: Seq<Callable<B>>, name: Seq<char>, n: int) -> Option<int>
    decreases n,
{
    if n <= 0 {
        None
    } else if s[n - 1].name@ == name {
        Some(n - 1)
    } else {
        last_named(s, name, n - 1)
    }
}

/// The callable named `name` (the last registered under it).
pub open spec fn named<B>(s: Seq<Callable<B>>, name: Seq<char>) -> Option<int> {
    last_named(s, name, s.len() as int)
}

fn find_named<B>(s: &Vec<Callable<B>>, name: &str) -> (r: Option<usize>)
    ensures
        match r {
            Some(i) => named(s@, name@) == Some(i as int) && i < s@.len(),
            None => named(s@, name@) is None,
        },
{
    let key = name.to_owned();
    let mut i = s.len();
    while i > 0
        invariant
            i <= s@.len(),
            named(s@, name@) == last_named(s@, name@, i as int),
            key@ == name@,
        decreases i,
    {
        if s[i - 1].name == key {
            return Some(i - 1);
        }
        i = i - 1;
    }
    None
}

/// The dispatch-facing view of one reflected type: its name, identity, constructors,
/// methods and static functions. Among methods, and among static functions, a later
/// registration under a name shadows an earlier one.
pub struct TypeInfo<C, M, S> {
    pub name: String,
    pub objtype: TypeKey,
    pub constructors: Vec<Callable<C>>,
    pub methods: Vec<Callable<M>>,
    pub functions: Vec<Callable<S>>,
}

impl<C: Constructor, M: Method, S: StaticFunction> TypeInfo<C, M, S> {
    /// The descriptor of the type named `name` in `registry` (see `find_type`).
    pub fn find_type<'a>(registry: &'a Registry<C, M, S>, name: &str) -> (r: Option<&'a TypeInfo<C, M, S>>)
        ensures
            match r {
                Some(t) => crate::registration::type_position(registry.types@, name@) matches Some(i)
                    && *t == registry.types@[i],
                None => crate::registration::type_position(registry.types@, name@) is None,
            },
    {
        crate::registration::find_type(registry, name)
    }

    /// Which constructor runs, and on what: the best-fitting one (see
    /// `Conversions::find_best_match`), on the arguments made to fit it (see `prepared`).
    pub open spec fn ctor_resolution(self, m: Map<(TypeKey, TypeKey), Conversions>, args: Seq<Value>) -> Result<(int, Seq<ValueView>), ErrorView> {
        match best_candidate(m, self.constructors@, args) {
            None => Err(ErrorView::NoMatchingConstructor(self.name@, args.len() as usize)),
            Some(i) => match prepared(m, self.constructors@[i].params@, views(args)) {
                Ok(s) => Ok((i, s)),
                Err(Unfit::ConversionFailed) => Err(
                    ErrorView::ArgumentConversionFailure(self.name@, args.len() as usize),
                ),
                Err(Unfit::NoFit) => Err(ErrorView::NoMatchingConstructor(self.name@, args.len() as usize)),
            },
        }
    }

    /// Which method runs, and on what: the one named `name`, on the arguments made to fit
    /// it (see `prepared`).
    pub open spec fn method_resolution(self, m: Map<(TypeKey, TypeKey), Conversions>, name: Seq<char>, args: Seq<Value>) -> Result<(int, Seq<ValueView>), ErrorView> {
        match named(self.methods@, name) {
            None => Err(ErrorView::MethodNotFound(name)),
            Some(i) => match prepared(m, self.methods@[i].params@, views(args)) {
                Ok(s) => Ok((i, s)),
                Err(Unfit::ConversionFailed) => Err(ErrorView::ArgumentConversionFailure(name, args.len() as usize)),
                Err(Unfit::NoFit) => Err(ErrorView::NoMatchingMethod(name)),
            },
        }
    }

    /// Which static function runs, and on what: the one named `name`, on the arguments made
    /// to fit it (see `prepared`).
    pub open spec fn function_resolution(self, m: Map<(TypeKey, TypeKey), Conversions>, name: Seq<char>, args: Seq<Value>) -> Result<(int, Seq<ValueView>), ErrorView> {
        match named(self.functions@, name) {
            None => Err(ErrorView::FunctionNotFound(name)),
            Some(i) => match prepared(m, self.functions@[i].params@, views(args)) {
                Ok(s) => Ok((i, s)),
                Err(Unfit::ConversionFailed) => Err(ErrorView::ArgumentConversionFailure(name, args.len() as usize)),
                Err(Unfit::NoFit) => Err(ErrorView::NoMatchingFunction(name)),
            },
        }
    }

    /// What building an instance from `args` may give: the error of `ctor_resolution`, or
    /// what the constructor it picks returns on the arguments it gives, passed on.
    pub open spec fn created(self, m: Map<(TypeKey, TypeKey), Conversions>, args: Seq<Value>, r: Result<Value, ReflectError>) -> bool {
        match self.ctor_resolution(m, args) {
            Err(e) => r matches Err(x) && x@ == e,
            Ok((i, s)) => exists|v: Vec<Value>, br: Result<Value, String>|
                views(v@) == s && #[trigger] self.constructors@[i].body.ensures((v,), br) && passed_on(br, r),
        }
    }

    /// Every callable of the type may be run on any arguments.
    pub open spec fn runs_anywhere(self) -> bool {
        &&& forall|i: int, a: Vec<Value>| 0 <= i < self.constructors@.len() ==> #[trigger] self.constructors@[i].body.requires((a,))
        &&& forall|i: int, o: &Value, a: Vec<Value>| 0 <= i < self.methods@.len() ==> #[trigger] self.methods@[i].body.requires((o, a))
        &&& forall|i: int, a: Vec<Value>| 0 <= i < self.functions@.len() ==> #[trigger] self.functions@[i].body.requires((a,))
    }

    /// Picks the constructor to run and makes the arguments fit it (see `ctor_resolution`).
    pub fn resolve_constructor(&self, table: &ConversionTable, args: Vec<Value>) -> (r: Result<(usize, Vec<Value>), ReflectError>)
        ensures
            match r {
                Ok((i, v)) => self.ctor_resolution(table@, args@) == Ok::<(int, Seq<ValueView>), ErrorView>((i as int, views(v@)))
                    && i < self.constructors@.len(),
                Err(e) => self.ctor_resolution(table@, args@) == Err::<(int, Seq<ValueView>), ErrorView>(e@),
            },
    {
        let count = args.len();
        let i = match Conversions::find_best_match(table, self.constructors.as_slice(), args.as_slice()) {
            Some(i) => i,
            None => return Err(ReflectError::NoMatchingConstructor(self.name.clone(), count)),
        };
        match prepare_arguments(table, self.constructors[i].arg_types(), args) {
            Ok(a) => Ok((i, a)),
            Err(Unfit::ConversionFailed) => Err(ReflectError::ArgumentConversionFailure(self.name.clone(), count)),
            Err(Unfit::NoFit) => Err(ReflectError::NoMatchingConstructor(self.name.clone(), count)),
        }
    }

    /// Picks the method named `name` and makes the arguments fit it (see
    /// `method_resolution`).
    pub fn resolve_method(&self, table: &ConversionTable, name: &str, args: Vec<Value>) -> (r: Result<(usize, Vec<Value>), ReflectError>)
        ensures
            match r {
                Ok((i, v)) => self.method_resolution(table@, name@, args@) == Ok::<(int, Seq<ValueView>), ErrorView>((i as int, views(v@)))
                    && i < self.methods@.len(),
                Err(e) => self.method_resolution(table@, name@, args@) == Err::<(int, Seq<ValueView>), ErrorView>(e@),
            },
    {
        let count = args.len();
        let i = match find_named(&self.methods, name) {
            Some(i) => i,
            None => return Err(ReflectError::MethodNotFound(name.to_owned())),
        };
        match prepare_arguments(table, self.methods[i].arg_types(), args) {
            Ok(a) => Ok((i, a)),
            Err(Unfit::ConversionFailed) => Err(ReflectError::ArgumentConversionFailure(name.to_owned(), count)),
            Err(Unfit::NoFit) => Err(ReflectError::NoMatchingMethod(name.to_owned())),
        }
    }

    /// Picks the static function named `name` and makes the arguments fit it (see
    /// `function_resolution`).
    pub fn resolve_function(&self, table: &ConversionTable, name: &str, args: Vec<Value>) -> (r: Result<(usize, Vec<Value>), ReflectError>)
        ensures
            match r {
                Ok((i, v)) => self.function_resolution(table@, name@, args@) == Ok::<(int, Seq<ValueView>), ErrorView>((i as int, views(v@)))
                    && i < self.functions@.len(),
                Err(e) => self.function_resolution(table@, name@, args@) == Err::<(int, Seq<ValueView>), ErrorView>(e@),
            },
    {
        let count = args.len();
        let i = match find_named(&self.functions, name) {
            Some(i) => i,
            None => return Err(ReflectError::FunctionNotFound(name.to_owned())),
        };
        match prepare_arguments(table, self.functions[i].arg_types(), args) {
            Ok(a) => Ok((i, a)),
            Err(Unfit::ConversionFailed) => Err(ReflectError::ArgumentConversionFailure(name.to_owned(), count)),
            Err(Unfit::NoFit) => Err(ReflectError::NoMatchingFunction(name.to_owned())),
        }
    }

    /// Builds an instance: runs the constructor that `ctor_resolution` picks on the
    /// arguments it gives, and passes on what that constructor returns.
    pub fn create(&self, table: &ConversionTable, args: Vec<Value>) -> (r: Result<Value, ReflectError>)
        requires
            self.runs_anywhere(),
        ensures
            self.created(table@, args@, r),
    {
        let (i, a) = self.resolve_constructor(table, args)?;
        let br = (self.constructors[i].body)(a);
        match br {
            Ok(v) => Ok(v),
            Err(e) => Err(ReflectError::Invocation(e)),
        }
    }

    /// Calls the method `name` on `obj`: runs the method that `method_resolution` picks on
    /// `obj` and the arguments it gives, and passes on what that method returns.
    pub fn call(&self, table: &ConversionTable, obj: &Value, name: &str, args: Vec<Value>) -> (r: Result<Value, ReflectError>)
        requires
            self.runs_anywhere(),
        ensures
            match self.method_resolution(table@, name@, args@) {
                Err(e) => r matches Err(x) && x@ == e,
                Ok((i, s)) => exists|v: Vec<Value>, br: Result<Value, String>|
                    views(v@) == s && #[trigger] self.methods@[i].body.ensures((obj, v), br) && passed_on(br, r),
            },
    {
        let (i, a) = self.resolve_method(table, name, args)?;
        let br = (self.methods[i].body)(obj, a);
        match br {
            Ok(v) => Ok(v),
            Err(e) => Err(ReflectError::Invocation(e)),
        }
    }

    /// Calls the static function `name`: runs the function that `function_resolution`
    /// picks on the arguments it gives, and passes on what that function returns.
    pub fn callstatic(&self, table: &ConversionTable, name: &str, args: Vec<Value>) -> (r: Result<Value, ReflectError>)
        requires
            self.runs_anywhere(),
        ensures
            match self.function_resolution(table@, name@, args@) {
                Err(e) => r matches Err(x) && x@ == e,
                Ok((i, s)) => exists|v: Vec<Value>, br: Result<Value, String>|
                    views(v@) == s && #[trigger] self.functions@[i].body.ensures((v,), br) && passed_on(br, r),
            },
    {
        let (i, a) = self.resolve_function(table, name, args)?;
        let br = (self.functions[i].body)(a);
        match br {
            Ok(v) => Ok(v),
            Err(e) => Err(ReflectError::Invocation(e)),
        }
    }
}

/// With the baseline rules, an integer vector given where a view over decimals is wanted
/// does not match as is, scores positively by a rule that is not equivalent, and is
/// converted element by element with none left out.
pub proof fn lemma_int_vector_as_decimal_view(xs: Seq<Number>)
    requires
        forall|i: int| 0 <= i < xs.len() ==> #[trigger] xs[i] is I32,
    ensures
        !matching_spec(
            baseline_rules(),
            seq![TypeKey::View(NumKind::F64)],
            type_keys(seq![ValueView::Vector(NumKind::I32, xs)]),
        ),
        rule_for(baseline_rules(), TypeKey::Vector(NumKind::I32), TypeKey::View(NumKind::F64))->0.score != EQUIVALENT,
        score_spec(
            baseline_rules(),
            seq![TypeKey::View(NumKind::F64)],
            type_keys(seq![ValueView::Vector(NumKind::I32, xs)]),
        ) > 0,
        prepared(
            baseline_rules(),
            seq![TypeKey::View(NumKind::F64)],
            seq![ValueView::Vector(NumKind::I32, xs)],
        ) == Ok::<Seq<ValueView>, Unfit>(seq![ValueView::View(NumKind::F64, convert_items(xs, NumKind::F64))]),
        convert_items(xs, NumKind::F64) == xs.map_values(
            |n: Number| Number::F64(Decimal { mantissa: int_value(n) as i128, exponent: 0 }),
        ),
{
    let args = seq![ValueView::Vector(NumKind::I32, xs)];
    let params = seq![TypeKey::View(NumKind::F64)];
    assert(args.len() == 1 && args[0] == ValueView::Vector(NumKind::I32, xs));
    assert(type_keys(args)[0] == TypeKey::Vector(NumKind::I32));
    assert(type_keys(args) =~= seq![TypeKey::Vector(NumKind::I32)]);
    assert(partial_score(baseline_rules(), params, type_keys(args), 0) == Some(0int));
    assert(rule_for(baseline_rules(), TypeKey::Vector(NumKind::I32), TypeKey::View(NumKind::F64)) == Some(
        Conversions { score: 150, convert: Converter::Elementwise },
    ));
    assert(partial_score(baseline_rules(), params, type_keys(args), 1) == Some(150int));
    assert(converted_prefix(baseline_rules(), params, args, 0) == Some(Seq::<ValueView>::empty()));
    assert(converted_prefix(baseline_rules(), params, args, 1) == Some(
        seq![ValueView::View(NumKind::F64, convert_items(xs, NumKind::F64))],
    )) by {
        assert(Seq::<ValueView>::empty().push(ValueView::View(NumKind::F64, convert_items(xs, NumKind::F64)))
            =~= seq![ValueView::View(NumKind::F64, convert_items(xs, NumKind::F64))]);
    }
    lemma_ints_to_decimals(xs);
}

proof fn lemma_ints_to_decimals(xs: Seq<Number>)
    requires
        forall|i: int| 0 <= i < xs.len() ==> #[trigger] xs[i] is I32,
    ensures
        convert_items(xs, NumKind::F64) == xs.map_values(
            |n: Number| Number::F64(Decimal { mantissa: int_value(n) as i128, exponent: 0 }),
        ),
    decreases xs.len(),
{
    if xs.len() > 0 {
        let p = xs.drop_last();
        assert forall|i: int| 0 <= i < p.len() implies #[trigger] p[i] is I32 by {
            assert(p[i] == xs[i]);
        }
        lemma_ints_to_decimals(p);
        assert(xs.last() is I32);
        assert(xs.map_values(|n: Number| Number::F64(Decimal { mantissa: int_value(n) as i128, exponent: 0 }))
            =~= p.map_values(|n: Number| Number::F64(Decimal { mantissa: int_value(n) as i128, exponent: 0 })).push(
            Number::F64(Decimal { mantissa: int_value(xs.last()) as i128, exponent: 0 })));
    }
}

/// Text given where a user type is wanted, through a registered text-to-tag rule that is
/// not equivalent and scores positively: it becomes the first tag the text names, and
/// where it names none, the conversion fails.
pub proof fn lemma_text_as_tag(m: Map<(TypeKey, TypeKey), Conversions>, class: u64, names: Vec<String>, score: i32, t: Seq<char>)
    requires
        rule_for(m, TypeKey::Text, TypeKey::User(class)) == Some(
            Conversions { score, convert: Converter::Tags(names) },
        ),
        0 < score,
        score != EQUIVALENT,
    ensures
        match tag_index(names@, t, 0) {
            Some(i) => prepared(m, seq![TypeKey::User(class)], seq![ValueView::Text(t)]) == Ok::<
                Seq<ValueView>,
                Unfit,
            >(seq![ValueView::Tag(class, i as u64)]),
            None => prepared(m, seq![TypeKey::User(class)], seq![ValueView::Text(t)]) == Err::<
                Seq<ValueView>,
                Unfit,
            >(Unfit::ConversionFailed),
        },
{
    let args = seq![ValueView::Text(t)];
    let params = seq![TypeKey::User(class)];
    assert(args.len() == 1 && args[0] == ValueView::Text(t));
    assert(type_keys(args)[0] == TypeKey::Text);
    assert(type_keys(args) =~= seq![TypeKey::Text]);
    assert(!matching_spec(m, params, type_keys(args))) by {
        assert(type_keys(args)[0] != params[0]);
    }
    assert(partial_score(m, params, type_keys(args), 0) == Some(0int));
    assert(partial_score(m, params, type_keys(args), 1) == Some(score as int));
    assert(converted_prefix(m, params, args, 0) == Some(Seq::<ValueView>::empty()));
    match tag_index(names@, t, 0) {
        Some(i) => {
            assert(Seq::<ValueView>::empty().push(ValueView::Tag(class, i as u64)) =~= seq![ValueView::Tag(class, i as u64)]);
        },
        None => {},
    }
}

} // verus!
