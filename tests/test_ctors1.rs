use reflect::{
    find_type, parse_decimal, register_constructor, register_method, Callable, Decimal,
    FunctionType, NumKind, Number, Registry, TypeInfo, TypeKey, Value,
};

const TEST1: u64 = 1;
const TEST2: u64 = 2;

type Ctor = fn(Vec<Value>) -> Result<Value, String>;
type Meth = fn(&Value, Vec<Value>) -> Result<Value, String>;
type Func = fn(Vec<Value>) -> Result<Value, String>;

fn decimal(x: f64) -> Decimal {
    let text: Vec<char> = format!("{}", x).chars().collect();
    parse_decimal(&text).expect("not a decimal")
}

fn to_f64(d: Decimal) -> f64 {
    if d.exponent >= 0 {
        d.mantissa as f64 * 10f64.powi(d.exponent)
    } else {
        d.mantissa as f64 / 10f64.powi(-d.exponent)
    }
}

fn int_arg(args: &[Value], i: usize) -> Result<i32, String> {
    match args.get(i) {
        Some(Value::Num(Number::I32(x))) => Ok(*x),
        _ => Err(format!("Invalid argument type for parameter {}", i)),
    }
}

fn float_arg(args: &[Value], i: usize) -> Result<f64, String> {
    match args.get(i) {
        Some(Value::Num(Number::F64(d))) => Ok(to_f64(*d)),
        _ => Err(format!("Invalid argument type for parameter {}", i)),
    }
}

// Test1 { alpha: i32, beta: f64 }, held as an object with those two fields
fn test1(alpha: i32, beta: f64) -> Value {
    Value::Object(TEST1, vec![Value::Num(Number::I32(alpha)), Value::Num(Number::F64(decimal(beta)))])
}

fn fields(obj: &Value) -> (i32, f64) {
    match obj {
        Value::Object(c, f) if *c == TEST1 => match (&f[0], &f[1]) {
            (Value::Num(Number::I32(a)), Value::Num(Number::F64(b))) => (*a, to_f64(*b)),
            _ => panic!("faied to downcast to type"),
        },
        _ => panic!("faied to downcast to type"),
    }
}

fn create1(args: Vec<Value>) -> Result<Value, String> {
    let a = int_arg(&args, 0)?;
    Ok(test1(a, f64::from(a) * f64::from(a)))
}

fn create2(args: Vec<Value>) -> Result<Value, String> {
    let a = int_arg(&args, 0)?;
    let b = float_arg(&args, 1)?;
    Ok(test1(a, b))
}

fn f(obj: &Value, args: Vec<Value>) -> Result<Value, String> {
    let x = int_arg(&args, 0)?;
    Ok(Value::Num(Number::I32(x * fields(obj).0)))
}

fn g(_obj: &Value, args: Vec<Value>) -> Result<Value, String> {
    let items = match args.get(0) {
        Some(Value::View(NumKind::F64, v)) | Some(Value::Vector(NumKind::F64, v)) => v,
        _ => return Err("Invalid argument type for parameter 0".to_string()),
    };
    let mut cum = 0.0;
    for n in items {
        if let Number::F64(d) = n {
            cum += to_f64(*d);
        }
    }
    Ok(Value::Num(Number::F64(decimal(cum))))
}

fn callable<B>(name: &str, kind: FunctionType, params: Vec<TypeKey>, ret: TypeKey, body: B) -> Callable<B> {
    Callable { name: name.to_string(), kind, params, ret, body }
}

fn registry() -> Registry<Ctor, Meth, Func> {
    let mut r = Registry::new();
    let t1 = TypeKey::User(TEST1);
    let i32k = TypeKey::Num(NumKind::I32);
    let f64k = TypeKey::Num(NumKind::F64);
    register_constructor(&mut r, "Test1", t1, callable("*", FunctionType::Constructor, vec![i32k], t1, create1 as Ctor));
    register_constructor(&mut r, "Test1", t1, callable("*", FunctionType::Constructor, vec![i32k, f64k], t1, create2 as Ctor));
    register_method(&mut r, "Test1", t1, callable("f", FunctionType::Method, vec![i32k], i32k, f as Meth));
    register_method(&mut r, "Test1", t1, callable("g", FunctionType::Method, vec![TypeKey::View(NumKind::F64)], f64k, g as Meth));
    let t2 = TypeKey::User(TEST2);
    register_constructor(&mut r, "Test2", t2, callable("*", FunctionType::Constructor, vec![i32k], t2, create1 as Ctor));
    r
}

#[test]
fn test_ctors1_test_ctors1() {
    let reg = registry();
    let args = vec![Value::Num(Number::I32(3)), Value::Num(Number::F64(decimal(3.1415926f64)))];
    let itype = TypeInfo::find_type(&reg, &String::from("Test1")).expect("could not find type");

    // create object
    let rawobj = itype.create(&reg.conversions, args).expect("failed to call ctor");
    // downcast object
    let (alpha, beta) = fields(&rawobj);

    assert_eq!(alpha, 3);
    assert_eq!(beta, 3.1415926);
}

#[test]
fn test_method1() {
    let reg = registry();
    let args_ctor = vec![Value::Num(Number::I32(3)), Value::Num(Number::F64(decimal(3.1415926f64)))];
    let args_fun = vec![Value::Num(Number::I32(4))];

    let itype = TypeInfo::find_type(&reg, &String::from("Test1")).expect("could not find type");

    // create object
    let rawobj = itype.create(&reg.conversions, args_ctor).expect("failed to call ctor");

    // call function on object
    let result = match itype.call(&reg.conversions, &rawobj, "f", args_fun) {
        Ok(Value::Num(Number::I32(v))) => v,
        _ => panic!("could not call function"),
    };

    assert_eq!(result, 12);
}

#[test]
fn test_method2() {
    let reg = registry();
    let args_ctor = vec![Value::Num(Number::I32(3))];
    let args_fun = vec![Value::Vector(NumKind::F64, vec![3.1, 4.2, 5.1].into_iter().map(|x| Number::F64(decimal(x))).collect())];

    let itype = TypeInfo::find_type(&reg, &String::from("Test1")).expect("could not find type");

    // create object
    let rawobj = itype.create(&reg.conversions, args_ctor).expect("failed to call ctor");

    // call function on object
    let result = match itype.call(&reg.conversions, &rawobj, "g", args_fun) {
        Ok(Value::Num(Number::F64(d))) => to_f64(d),
        Ok(v) => panic!("{:?}", v),
        Err(e) => panic!("{:?}", e),
    };

    assert_eq!(result, 12.4);
}

#[test]
fn test_generated() {
    let reg = registry();
    let _args = vec![Value::Num(Number::I32(3)), Value::Num(Number::F64(decimal(3.1415926f64)))];
    let _itype = TypeInfo::find_type(&reg, &String::from("Test2")).expect("could not find type");
}

#[test]
fn test_ctors1() {
    let reg = registry();
    let _args = vec![Value::Num(Number::I32(3)), Value::Num(Number::F64(decimal(3.1415926f64)))];
    let _itype = find_type(&reg, "Test1").expect("could not find type");
}
