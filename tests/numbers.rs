use reflect::{
    list_literal, number_literal, parse_decimal, parse_integer, to_camel_case, type_shortname, tokenize,
    CTorParser, Decimal, NodeKind, NumKind, Number, TokKind, Value,
};
use reflect::number_to_kind;

fn chars(s: &str) -> Vec<char> {
    s.chars().collect()
}

fn dec(m: i128, e: i32) -> Decimal {
    Decimal { mantissa: m, exponent: e }
}

#[test]
fn decimal_text() {
    assert_eq!(parse_decimal(&chars("3.1415926")), Some(dec(31415926, -7)));
    assert_eq!(parse_decimal(&chars("1e5")), Some(dec(1, 5)));
    assert_eq!(parse_decimal(&chars("-0.5e-2")), Some(dec(-5, -3)));
    assert_eq!(parse_decimal(&chars("+12")), Some(dec(12, 0)));
    assert_eq!(parse_decimal(&chars("1.")), Some(dec(1, 0)));
    assert_eq!(parse_decimal(&chars(".5")), Some(dec(5, -1)));
    assert_eq!(parse_decimal(&chars("-.25e1")), Some(dec(-25, -1)));
    assert_eq!(parse_decimal(&chars(".")), None);
    assert_eq!(parse_decimal(&chars(".e1")), None);
    assert_eq!(parse_decimal(&chars("abc")), None);
    assert_eq!(parse_decimal(&chars("1e")), None);
    assert_eq!(parse_decimal(&chars("")), None);
}

#[test]
fn integer_text() {
    assert_eq!(parse_integer(&chars("-42")), Some(-42));
    assert_eq!(parse_integer(&chars("+7")), Some(7));
    assert_eq!(parse_integer(&chars("-")), None);
    assert_eq!(parse_integer(&chars("4.2")), None);
    assert_eq!(parse_integer(&chars("999999999999999999999999999999999999999999")), None);
}

#[test]
fn numeric_conversions() {
    assert_eq!(number_to_kind(Number::F64(dec(25, -1)), NumKind::I32), Some(Number::I32(3)));
    assert_eq!(number_to_kind(Number::F64(dec(-25, -1)), NumKind::I32), Some(Number::I32(-3)));
    assert_eq!(number_to_kind(Number::F64(dec(24, -1)), NumKind::I64), Some(Number::I64(2)));
    assert_eq!(number_to_kind(Number::F64(dec(1, 10)), NumKind::I32), Some(Number::I32(i32::MAX)));
    assert_eq!(number_to_kind(Number::F64(dec(-17, -1)), NumKind::U32), Some(Number::U32(0)));
    assert_eq!(number_to_kind(Number::F64(dec(5, -40)), NumKind::U64), Some(Number::U64(0)));
    assert_eq!(number_to_kind(Number::I64(1 << 40), NumKind::I32), None);
    assert_eq!(number_to_kind(Number::I32(-1), NumKind::U64), None);
    assert_eq!(number_to_kind(Number::U64(u64::MAX), NumKind::F64), Some(Number::F64(dec(u64::MAX as i128, 0))));
}

#[test]
fn literals_box_by_their_writing() {
    assert!(matches!(number_literal(&chars("900")), Some(Value::Num(Number::I64(900)))));
    assert!(matches!(number_literal(&chars("0.5")), Some(Value::Num(Number::F64(d))) if d == dec(5, -1)));
    assert!(number_literal(&chars("99999999999999999999")).is_none());
    match list_literal(&vec![chars("100"), chars("200")]) {
        Some(Value::Vector(NumKind::I32, v)) => assert_eq!(v, vec![Number::I32(100), Number::I32(200)]),
        other => panic!("{:?}", other),
    }
    match list_literal(&vec![chars("1"), chars("0.5")]) {
        Some(Value::Vector(NumKind::F64, v)) => assert_eq!(v, vec![Number::F64(dec(1, 0)), Number::F64(dec(5, -1))]),
        other => panic!("{:?}", other),
    }
    assert!(list_literal(&vec![chars("3000000000")]).is_none());
}

#[test]
fn test_parse1() {
    let input = "Filter(Momentum(SMA,[100,200,300],[0.6, 0.3, 0.1], 3), 900)";
    let tree = CTorParser::parse(input).expect("Parsing error");
    let root = tree.nodes.last().expect("empty tree");
    assert_eq!(root.kind, NodeKind::Call);
    assert_eq!(tree.token_text(root.token).as_deref(), Some("Filter"));
    assert_eq!(root.children.len(), 2);
    let inner = &tree.nodes[root.children[0]];
    assert_eq!(inner.kind, NodeKind::Call);
    assert_eq!(tree.token_text(inner.token).as_deref(), Some("Momentum"));
    let last = &tree.nodes[root.children[1]];
    assert_eq!(last.kind, NodeKind::Number);
    assert_eq!(tree.token_text(last.token).as_deref(), Some("900"));
    let kinds: Vec<NodeKind> = inner.children.iter().map(|c| tree.nodes[*c].kind).collect();
    assert_eq!(kinds, vec![NodeKind::Ident, NodeKind::List, NodeKind::List, NodeKind::Number]);
    assert_eq!(tree.token_text(tree.nodes[inner.children[0]].token).as_deref(), Some("SMA"));
    let list_items = |i: usize| -> Vec<Vec<char>> {
        tree.nodes[inner.children[i]]
            .children
            .iter()
            .map(|c| chars(&tree.token_text(tree.nodes[*c].token).unwrap()))
            .collect()
    };
    match list_literal(&list_items(1)) {
        Some(Value::Vector(NumKind::I32, v)) => assert_eq!(v, vec![Number::I32(100), Number::I32(200), Number::I32(300)]),
        other => panic!("{:?}", other),
    }
    match list_literal(&list_items(2)) {
        Some(Value::Vector(NumKind::F64, v)) => {
            assert_eq!(v, vec![Number::F64(dec(6, -1)), Number::F64(dec(3, -1)), Number::F64(dec(1, -1))])
        },
        other => panic!("{:?}", other),
    }
    assert_eq!(tree.token_text(tree.nodes[inner.children[3]].token).as_deref(), Some("3"));
}

#[test]
fn tokens_of_text() {
    let t = tokenize(&chars(" A( b,[1e3 ,-2] )")).expect("lex failed");
    let kinds: Vec<TokKind> = t.iter().map(|t| t.kind).collect();
    assert_eq!(
        kinds,
        vec![
            TokKind::Ident,
            TokKind::Open,
            TokKind::Ident,
            TokKind::Comma,
            TokKind::LBracket,
            TokKind::Number,
            TokKind::Comma,
            TokKind::Number,
            TokKind::RBracket,
            TokKind::Close
        ]
    );
    assert_eq!((t[5].start, t[5].end), (7, 10));
    assert_eq!(tokenize(&chars("A(1;2)")), Err(3));
}

#[test]
fn camel_case_names() {
    assert_eq!(to_camel_case("hello_world"), "HelloWorld");
    assert_eq!(to_camel_case("a__b"), "AB");
    assert_eq!(to_camel_case("HTTP_server"), "HttpServer");
    assert_eq!(to_camel_case(""), "");
}

#[test]
fn short_type_names() {
    assert_eq!(type_shortname("crate::module::Test1"), "Test1");
    assert_eq!(type_shortname("Test1"), "Test1");
    assert_eq!(type_shortname("a:::b"), ":b");
    assert_eq!(type_shortname("a::"), "");
}

#[test]
fn camel_case_from_given_mappings() {
    let s = chars("ab_c");
    let ups = vec![chars("X"), chars("Y"), chars("_"), chars("ZZ")];
    let lows = vec![chars("p"), chars("qr"), chars("_"), chars("")];
    assert_eq!(reflect::camel_case_with(&s, &ups, &lows), "XqZZ");
    let ss = chars("straße_x");
    let ups2: Vec<Vec<char>> = ss.iter().map(|c| c.to_uppercase().collect()).collect();
    let lows2: Vec<Vec<char>> = ss.iter().map(|c| c.to_lowercase().collect()).collect();
    assert_eq!(reflect::camel_case_with(&ss, &ups2, &lows2), "StraßeX");
    assert_eq!(to_camel_case("straße_x"), "StraßeX");
    assert_eq!(to_camel_case("ß_a"), "SSA");
}
