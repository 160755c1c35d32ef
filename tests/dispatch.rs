use reflect::{
    prepare_arguments, register_constructor, register_function, register_method, Callable,
    ConversionTable, Conversions, Converter, CTorParser, Decimal, Function, FunctionType, NumKind, Number,
    NodeKind, ReflectError, Registry, TypeInfo, TypeKey, Unfit, Value, EQUIVALENT, node_value,
};

const MATYPE: u64 = 10;
const MOMENTUM: u64 = 20;
const FILTER: u64 = 30;

type Ctor = fn(Vec<Value>) -> Result<Value, String>;
type Meth = fn(&Value, Vec<Value>) -> Result<Value, String>;
type Func = fn(Vec<Value>) -> Result<Value, String>;

fn callable<B>(name: &str, kind: FunctionType, params: Vec<TypeKey>, ret: TypeKey, body: B) -> Callable<B> {
    Callable { name: name.to_string(), kind, params, ret, body }
}

fn i32v(x: i32) -> Value {
    Value::Num(Number::I32(x))
}

fn keep_all(args: Vec<Value>) -> Result<Value, String> {
    Ok(Value::Object(MOMENTUM, args))
}

fn wrap_filter(args: Vec<Value>) -> Result<Value, String> {
    Ok(Value::Object(FILTER, args))
}

fn count_items(_obj: &Value, args: Vec<Value>) -> Result<Value, String> {
    match &args[0] {
        Value::View(NumKind::F64, v) | Value::Vector(NumKind::F64, v) => Ok(i32v(v.len() as i32)),
        _ => Err("not a view over decimals".to_string()),
    }
}

fn always_fails(_args: Vec<Value>) -> Result<Value, String> {
    Err("refused".to_string())
}

fn double(args: Vec<Value>) -> Result<Value, String> {
    match &args[0] {
        Value::Num(Number::I64(x)) => Ok(Value::Num(Number::I64(2 * x))),
        _ => Err("not an i64".to_string()),
    }
}

fn registry() -> Registry<Ctor, Meth, Func> {
    let mut r = Registry::new();
    let tag = TypeKey::User(MATYPE);
    let mom = TypeKey::User(MOMENTUM);
    let fil = TypeKey::User(FILTER);
    Conversions::add(
        &mut r.conversions,
        TypeKey::Text,
        tag,
        100,
        Converter::Tags(vec!["SMA".to_string(), "EMA".to_string()]),
    );
    register_constructor(
        &mut r,
        "Momentum",
        mom,
        callable(
            "*",
            FunctionType::Constructor,
            vec![tag, TypeKey::View(NumKind::I32), TypeKey::View(NumKind::F64), TypeKey::Num(NumKind::I32)],
            mom,
            keep_all as Ctor,
        ),
    );
    register_method(
        &mut r,
        "Momentum",
        mom,
        callable("count", FunctionType::Method, vec![TypeKey::View(NumKind::F64)], TypeKey::Num(NumKind::I32), count_items as Meth),
    );
    register_function(
        &mut r,
        "Momentum",
        mom,
        callable("double", FunctionType::Static, vec![TypeKey::Num(NumKind::I64)], TypeKey::Num(NumKind::I64), double as Func),
    );
    register_constructor(
        &mut r,
        "Filter",
        fil,
        callable("*", FunctionType::Constructor, vec![mom, TypeKey::Num(NumKind::I32)], fil, wrap_filter as Ctor),
    );
    register_constructor(
        &mut r,
        "Broken",
        TypeKey::User(40),
        callable("*", FunctionType::Constructor, vec![TypeKey::Num(NumKind::I32)], TypeKey::User(40), always_fails as Ctor),
    );
    r
}

fn ints(v: &[i32]) -> Vec<Number> {
    v.iter().map(|x| Number::I32(*x)).collect()
}

fn dec(m: i128, e: i32) -> Number {
    Number::F64(Decimal { mantissa: m, exponent: e })
}

#[test]
fn builds_nested_object_graph() {
    let reg = registry();
    let obj = CTorParser::create(&reg, "Filter(Momentum(SMA,[100,200,300],[0.6, 0.3, 0.1], 3), 900)")
        .expect("build failed");
    match obj {
        Value::Object(FILTER, fields) => {
            assert_eq!(fields.len(), 2);
            match &fields[0] {
                Value::Object(MOMENTUM, m) => {
                    assert_eq!(m.len(), 4);
                    assert!(matches!(m[0], Value::Tag(MATYPE, 0)));
                    match &m[1] {
                        Value::View(NumKind::I32, v) => assert_eq!(v, &ints(&[100, 200, 300])),
                        other => panic!("{:?}", other),
                    }
                    match &m[2] {
                        Value::View(NumKind::F64, v) => assert_eq!(v, &vec![dec(6, -1), dec(3, -1), dec(1, -1)]),
                        other => panic!("{:?}", other),
                    }
                    assert!(matches!(m[3], Value::Num(Number::I32(3))));
                },
                other => panic!("{:?}", other),
            }
            assert!(matches!(fields[1], Value::Num(Number::I32(900))));
        },
        other => panic!("{:?}", other),
    }
}

#[test]
fn unknown_tag_text_fails_conversion() {
    let reg = registry();
    let r = CTorParser::create(&reg, "Momentum(XMA,[1],[0.5],3)");
    match r {
        Err(ReflectError::ArgumentConversionFailure(n, c)) => {
            assert_eq!(n, "Momentum");
            assert_eq!(c, 4);
        },
        other => panic!("{:?}", other),
    }
}

#[test]
fn known_tag_text_converts() {
    let reg = registry();
    let r = CTorParser::create(&reg, "Momentum(EMA,[1],[0.5],3)").expect("build failed");
    match r {
        Value::Object(MOMENTUM, m) => assert!(matches!(m[0], Value::Tag(MATYPE, 1))),
        other => panic!("{:?}", other),
    }
}

#[test]
fn unknown_type_is_reported() {
    let reg = registry();
    match CTorParser::create(&reg, "Missing(1)") {
        Err(ReflectError::UnknownType(n, c)) => {
            assert_eq!(n, "Missing");
            assert_eq!(c, 1);
        },
        other => panic!("{:?}", other),
    }
}

#[test]
fn malformed_expression_is_a_parse_error() {
    let reg = registry();
    match CTorParser::create(&reg, "Filter(1;2)") {
        Err(ReflectError::Parse(f)) => assert_eq!(f, ";2)"),
        other => panic!("{:?}", other),
    }
    match CTorParser::create(&reg, "Filter(1,99999999999999999999)") {
        Err(ReflectError::Parse(f)) => assert_eq!(f, "99999999999999999999"),
        other => panic!("{:?}", other),
    }
    assert!(matches!(CTorParser::create(&reg, "Filter(1,2"), Err(ReflectError::Parse(_))));
    assert!(matches!(CTorParser::create(&reg, "Filter()"), Err(ReflectError::Parse(_))));
    assert!(matches!(CTorParser::create(&reg, "[1,2]"), Err(ReflectError::Parse(_))));
}

#[test]
fn no_matching_constructor_names_type_and_count() {
    let reg = registry();
    match CTorParser::create(&reg, "Filter(1,2,3)") {
        Err(ReflectError::NoMatchingConstructor(n, c)) => {
            assert_eq!(n, "Filter");
            assert_eq!(c, 3);
        },
        other => panic!("{:?}", other),
    }
    match CTorParser::create(&reg, "Filter(Missing(1, 2), 3)") {
        Err(ReflectError::UnknownType(n, c)) => {
            assert_eq!(n, "Missing");
            assert_eq!(c, 2);
        },
        other => panic!("{:?}", other),
    }
}

#[test]
fn constructor_failure_is_passed_on() {
    let reg = registry();
    match CTorParser::create(&reg, "Broken(1)") {
        Err(ReflectError::Invocation(m)) => assert_eq!(m, "refused"),
        other => panic!("{:?}", other),
    }
}

#[test]
fn integer_vector_converts_to_decimal_view() {
    let reg = registry();
    let itype = TypeInfo::find_type(&reg, "Momentum").expect("could not find type");
    let obj = Value::Object(MOMENTUM, vec![]);
    let r = itype.call(&reg.conversions, &obj, "count", vec![Value::Vector(NumKind::I32, ints(&[1, 2, 3]))]);
    assert!(matches!(r, Ok(Value::Num(Number::I32(3)))));
    let table = ConversionTable::baseline();
    let params = [TypeKey::View(NumKind::F64)];
    let args = vec![Value::Vector(NumKind::I32, ints(&[1, -2]))];
    assert!(!Conversions::matching(&table, &params, &args));
    assert_eq!(Conversions::score(&table, &params, &args), 150);
    match prepare_arguments(&table, &params, args) {
        Ok(v) => match &v[0] {
            Value::View(NumKind::F64, items) => assert_eq!(items, &vec![dec(1, 0), dec(-2, 0)]),
            other => panic!("{:?}", other),
        },
        Err(e) => panic!("{:?}", e),
    }
}

#[test]
fn method_and_function_errors() {
    let reg = registry();
    let itype = TypeInfo::find_type(&reg, "Momentum").expect("could not find type");
    let obj = Value::Object(MOMENTUM, vec![]);
    match itype.call(&reg.conversions, &obj, "nope", vec![]) {
        Err(ReflectError::MethodNotFound(n)) => assert_eq!(n, "nope"),
        other => panic!("{:?}", other),
    }
    match itype.call(&reg.conversions, &obj, "count", vec![Value::Text("x".to_string())]) {
        Err(ReflectError::NoMatchingMethod(n)) => assert_eq!(n, "count"),
        other => panic!("{:?}", other),
    }
    match itype.callstatic(&reg.conversions, "nope", vec![]) {
        Err(ReflectError::FunctionNotFound(n)) => assert_eq!(n, "nope"),
        other => panic!("{:?}", other),
    }
    match itype.callstatic(&reg.conversions, "double", vec![i32v(1), i32v(2)]) {
        Err(ReflectError::NoMatchingFunction(n)) => assert_eq!(n, "double"),
        other => panic!("{:?}", other),
    }
    match itype.callstatic(&reg.conversions, "double", vec![Value::Text("abc".to_string())]) {
        Err(ReflectError::ArgumentConversionFailure(n, c)) => {
            assert_eq!(n, "double");
            assert_eq!(c, 1);
        },
        other => panic!("{:?}", other),
    }
    match itype.callstatic(&reg.conversions, "double", vec![Value::Text("21".to_string())]) {
        Ok(Value::Num(Number::I64(42))) => {},
        other => panic!("{:?}", other),
    }
    match itype.callstatic(&reg.conversions, "double", vec![i32v(5)]) {
        Ok(Value::Num(Number::I64(10))) => {},
        other => panic!("{:?}", other),
    }
}

#[test]
fn self_conversion_is_equivalent_identity() {
    let table = ConversionTable::baseline();
    for k in [NumKind::I32, NumKind::U32, NumKind::I64, NumKind::U64, NumKind::F64] {
        for t in [TypeKey::Num(k), TypeKey::Vector(k), TypeKey::View(k)] {
            let rule = Conversions::find(&table, t, t).expect("no rule");
            assert!(rule.is_equivalent());
            assert!(matches!(rule.convert, Converter::Identity));
        }
    }
    let rule = Conversions::find(&table, TypeKey::Text, TypeKey::Text).expect("no rule");
    assert_eq!(rule.score, EQUIVALENT);
    let v = reflect::Converter::Identity;
    match reflect::apply_converter(&v, Value::Text("abc".to_string()), TypeKey::Text) {
        Some(Value::Text(s)) => assert_eq!(s, "abc"),
        other => panic!("{:?}", other),
    }
    match reflect::apply_converter(&v, Value::Num(dec(-25, -1)), TypeKey::Num(NumKind::F64)) {
        Some(Value::Num(n)) => assert_eq!(n, dec(-25, -1)),
        other => panic!("{:?}", other),
    }
}

#[test]
fn registering_a_type_adds_its_self_rule() {
    let reg = registry();
    let rule = Conversions::find(&reg.conversions, TypeKey::User(MOMENTUM), TypeKey::User(MOMENTUM)).expect("no rule");
    assert!(rule.is_equivalent());
    assert!(Conversions::find(&reg.conversions, TypeKey::User(99), TypeKey::User(99)).is_none());
}

#[test]
fn better_rule_scores_higher() {
    let table = ConversionTable::baseline();
    let params = [TypeKey::Num(NumKind::I64), TypeKey::Num(NumKind::I32)];
    let a = vec![i32v(1), i32v(2)];
    let b = vec![Value::Num(Number::I64(1)), i32v(2)];
    assert_eq!(Conversions::score(&table, &params, &a), 350);
    assert_eq!(Conversions::score(&table, &params, &b), 400);
    let narrow = [TypeKey::Num(NumKind::I32)];
    assert!(
        Conversions::score(&table, &[TypeKey::Num(NumKind::I64)], &[i32v(1)])
            > Conversions::score(&table, &narrow, &[Value::Num(Number::I64(1))])
    );
    assert_eq!(Conversions::score(&table, &params, &[i32v(1)]), -200);
    assert_eq!(Conversions::score(&table, &params, &[Value::Object(5, vec![]), i32v(2)]), -100);
}

#[test]
fn best_match_choice() {
    let table = ConversionTable::baseline();
    let none: Vec<Callable<()>> = vec![];
    assert_eq!(Conversions::find_best_match(&table, &none, &[i32v(1)]), None);
    let cands = vec![
        callable("a", FunctionType::Static, vec![TypeKey::Text, TypeKey::Text], TypeKey::Text, ()),
        callable("b", FunctionType::Static, vec![TypeKey::Num(NumKind::I64)], TypeKey::Text, ()),
        callable("c", FunctionType::Static, vec![TypeKey::User(3)], TypeKey::Text, ()),
    ];
    assert_eq!(Conversions::find_best_match(&table, &cands, &[i32v(1)]), Some(1));
    assert_eq!(Conversions::find_best_match(&table, &cands, &[Value::Object(9, vec![])]), None);
    let tied = vec![
        callable("a", FunctionType::Static, vec![TypeKey::Num(NumKind::U32)], TypeKey::Text, ()),
        callable("b", FunctionType::Static, vec![TypeKey::Num(NumKind::F64)], TypeKey::Text, ()),
        callable("c", FunctionType::Static, vec![TypeKey::Num(NumKind::I32)], TypeKey::Text, ()),
    ];
    assert_eq!(Conversions::find_best_match(&table, &tied, &[i32v(1)]), Some(2));
    assert_eq!(Conversions::find_best_match(&table, &tied[..2], &[i32v(1)]), Some(0));
}

#[test]
fn convert_argv_is_all_or_nothing() {
    let table = ConversionTable::baseline();
    let params = [TypeKey::Num(NumKind::U32), TypeKey::Num(NumKind::I32)];
    let r = Conversions::convert_argv(&table, &params, vec![Value::Text("7".to_string()), Value::Num(dec(25, -1))]);
    match r {
        Some(v) => {
            assert!(matches!(v[0], Value::Num(Number::U32(7))));
            assert!(matches!(v[1], Value::Num(Number::I32(3))));
        },
        None => panic!("conversion failed"),
    }
    assert!(Conversions::convert_argv(&table, &params, vec![Value::Text("-7".to_string()), i32v(1)]).is_none());
    assert!(Conversions::convert_argv(&table, &params, vec![i32v(-1), i32v(1)]).is_none());
    assert!(Conversions::convert_argv(&table, &params, vec![i32v(1)]).is_none());
    assert!(matches!(
        prepare_arguments(&table, &params, vec![Value::Text("x".to_string()), i32v(1)]),
        Err(Unfit::ConversionFailed)
    ));
    assert!(matches!(prepare_arguments(&table, &params, vec![i32v(1)]), Err(Unfit::NoFit)));
}

#[test]
fn later_rule_replaces_earlier() {
    let mut table = ConversionTable::new();
    assert!(Conversions::find(&table, TypeKey::Text, TypeKey::User(1)).is_none());
    Conversions::add(&mut table, TypeKey::Text, TypeKey::User(1), 10, Converter::Tags(vec!["A".to_string()]));
    Conversions::add(&mut table, TypeKey::Text, TypeKey::User(1), 20, Converter::Tags(vec!["B".to_string()]));
    assert_eq!(Conversions::find(&table, TypeKey::Text, TypeKey::User(1)).map(|r| r.score), Some(20));
}

#[test]
fn strict_elementwise_fails_on_any_element() {
    let mut table = ConversionTable::baseline();
    let to = TypeKey::View(NumKind::U32);
    Conversions::add(&mut table, TypeKey::Vector(NumKind::I64), to, 120, Converter::ElementwiseStrict);
    let params = [to];
    let ok = vec![Value::Vector(NumKind::I64, vec![Number::I64(1), Number::I64(2)])];
    match Conversions::convert_argv(&table, &params, ok) {
        Some(v) => match &v[0] {
            Value::View(NumKind::U32, items) => assert_eq!(items, &vec![Number::U32(1), Number::U32(2)]),
            other => panic!("{:?}", other),
        },
        None => panic!("conversion failed"),
    }
    let bad = vec![Value::Vector(NumKind::I64, vec![Number::I64(1), Number::I64(-2)])];
    assert!(Conversions::convert_argv(&table, &params, bad).is_none());
    Conversions::add(&mut table, TypeKey::Vector(NumKind::I64), to, 120, Converter::Elementwise);
    let lossy = vec![Value::Vector(NumKind::I64, vec![Number::I64(1), Number::I64(-2)])];
    match Conversions::convert_argv(&table, &params, lossy) {
        Some(v) => match &v[0] {
            Value::View(NumKind::U32, items) => assert_eq!(items, &vec![Number::U32(1)]),
            other => panic!("{:?}", other),
        },
        None => panic!("conversion failed"),
    }
}

#[test]
fn callable_describes_itself() {
    let table = ConversionTable::baseline();
    let c = callable("g", FunctionType::Method, vec![TypeKey::View(NumKind::F64)], TypeKey::Num(NumKind::F64), ());
    assert_eq!(c.name(), "g");
    assert_eq!(c.arg_types(), &[TypeKey::View(NumKind::F64)]);
    assert_eq!(c.return_type(), TypeKey::Num(NumKind::F64));
    assert!(c.matching(&table, &[Value::Vector(NumKind::F64, vec![])]));
    assert!(!c.matching(&table, &[Value::Vector(NumKind::I32, vec![])]));
    assert!(!c.matching(&table, &[]));
}

#[test]
fn error_messages() {
    assert_eq!(
        ReflectError::NoMatchingConstructor("Filter".to_string(), 3).message(),
        "could not find ctor of Filter for 3 arguments"
    );
    assert_eq!(
        ReflectError::NoMatchingConstructor("T".to_string(), 120).message(),
        "could not find ctor of T for 120 arguments"
    );
    assert_eq!(ReflectError::MethodNotFound("f".to_string()).message(), "could not find method: f");
    assert_eq!(ReflectError::UnknownType("X".to_string(), 2).message(), "could not find type X (called with 2 arguments)");
    assert_eq!(
        ReflectError::ArgumentConversionFailure("m".to_string(), 1).message(),
        "failed to convert the 1 arguments for: m"
    );
    assert_eq!(ReflectError::Invocation("boom".to_string()).message(), "boom");
}

#[test]
fn node_values_of_a_tree() {
    let reg = registry();
    let tree = CTorParser::parse("Momentum(SMA,[1],[0.5],3)").expect("parse failed");
    let kinds: Vec<NodeKind> = tree.nodes.iter().map(|n| n.kind).collect();
    assert_eq!(
        kinds,
        vec![NodeKind::Ident, NodeKind::Number, NodeKind::List, NodeKind::Number, NodeKind::List, NodeKind::Number, NodeKind::Call]
    );
    match node_value(&reg, &tree, 0, vec![]) {
        Ok(Value::Text(s)) => assert_eq!(s, "SMA"),
        other => panic!("{:?}", other),
    }
    match node_value(&reg, &tree, 2, vec![]) {
        Ok(Value::Vector(NumKind::I32, v)) => assert_eq!(v, ints(&[1])),
        other => panic!("{:?}", other),
    }
    assert!(matches!(node_value(&reg, &tree, 5, vec![]), Ok(Value::Num(Number::I64(3)))));
    let kids = vec![
        Value::Text("SMA".to_string()),
        Value::Vector(NumKind::I32, ints(&[1])),
        Value::Vector(NumKind::F64, vec![dec(5, -1)]),
        Value::Num(Number::I64(3)),
    ];
    match node_value(&reg, &tree, 6, kids) {
        Ok(Value::Object(MOMENTUM, m)) => assert!(matches!(m[0], Value::Tag(MATYPE, 0))),
        other => panic!("{:?}", other),
    }
}
