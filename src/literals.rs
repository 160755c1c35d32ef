use vstd::prelude::*;
use crate::numbers::{integer_shape, integer_text, parsed_decimal, parse_decimal, parse_integer};
use crate::value::{NumKind, Number, Value, ValueView};

verus! {

/// The value a number literal boxes to: an integer that fits `i64` as an `i64`, any other
/// decimal as a floating-point number; `None` for an integer too large for `i64` or text
/// that is no number.
pub open spec fn literal_value(s: Seq<char>) -> Option<ValueView> {
    match integer_text(s) {
        Some(v) => if i64::MIN <= v <= i64::MAX {
            Some(ValueView::Num(Number::I64(v as i64)))
        } else {
            None
        },
        None => match parsed_decimal(s) {
            Some(d) => Some(ValueView::Num(Number::F64(d))),
            None => None,
        },
    }
}

/// Whether a list element is written with a fraction or an exponent.
pub open spec fn written_as_float(s: Seq<char>) -> bool {
    integer_text(s) is None
}

/// Every element read as a decimal, or `None` if one is no number.
pub open spec fn as_decimals(items: Seq<Seq<char>>) -> Option<Seq<Number>>
    decreases items.len(),
{
    if items.len() == 0 {
        Some(Seq::empty())
    } else {
        match (as_decimals(items.drop_last()), parsed_decimal(items.last())) {
            (Some(s), Some(d)) => Some(s.push(Number::F64(d))),
            _ => None,
        }
    }
}

/// Every element read as an `i32`, or `None` if one is not an integer in its range.
pub open spec fn as_i32s(items: Seq<Seq<char>>) -> Option<Seq<Number>>
    decreases items.len(),
{
    if items.len() == 0 {
        Some(Seq::empty())
    } else {
        match (as_i32s(items.drop_last()), integer_text(items.last())) {
            (Some(s), Some(v)) => if i32::MIN <= v <= i32::MAX {
                Some(s.push(Number::I32(v as i32)))
            } else {
                None
            },
            _ => None,
        }
    }
}

/// The value a list of number literals boxes to: a vector of decimals if any element is
/// written with a fraction or an exponent, else a vector of `i32`.
pub open spec fn list_value(items: Seq<Seq<char>>) -> Option<ValueView> {
    if exists|i: int| 0 <= i < items.len() && written_as_float(#[trigger] items[i]) {
        match as_decimals(items) {
            Some(s) => Some(ValueView::Vector(NumKind::F64, s)),
            None => None,
        }
    } else {
        match as_i32s(items) {
            Some(s) => Some(ValueView::Vector(NumKind::I32, s)),
            None => None,
        }
    }
}

proof fn lemma_list_lengths(items: Seq<Seq<char>>)
    ensures
        as_decimals(items) matches Some(s) ==> s.len() == items.len(),
        as_i32s(items) matches Some(s) ==> s.len() == items.len(),
    decreases items.len(),
{
    if items.len() > 0 {
        lemma_list_lengths(items.drop_last());
    }
}

/// A list boxes to a vector with one element for each literal, of decimals exactly when
/// some literal is written with a fraction or an exponent, and of `i32` otherwise.
pub proof fn lemma_list_rule(items: Seq<Seq<char>>)
    ensures
        list_value(items) matches Some(v) ==> match v {
            ValueView::Vector(k, s) => s.len() == items.len() && (k == NumKind::F64 <==> exists|i: int|
                0 <= i < items.len() && written_as_float(#[trigger] items[i])) && (k == NumKind::F64 || k
                == NumKind::I32),
            _ => false,
        },
{
    lemma_list_lengths(items);
}

/// Boxes a number literal (see `literal_value`).
pub fn number_literal(s: &[char]) -> (r: Option<Value>)
    ensures
        match r {
            Some(v) => literal_value(s@) == Some(v@),
            None => literal_value(s@) is None,
        },
{
    match parse_integer(s) {
        Some(v) => {
            if i64::MIN as i128 <= v && v <= i64::MAX as i128 {
                Some(Value::Num(Number::I64(v as i64)))
            } else {
                None
            }
        },
        None => {
            if integer_shape(s) {
                return None;
            }
            match parse_decimal(s) {
                Some(d) => Some(Value::Num(Number::F64(d))),
                None => None,
            }
        },
    }
}

pub open spec fn texts(items: Seq<Vec<char>>) -> Seq<Seq<char>> {
    items.map_values(|v: Vec<char>| v@)
}

/// Boxes a list of number literals (see `list_value`).
pub fn list_literal(items: &Vec<Vec<char>>) -> (r: Option<Value>)
    ensures
        match r {
            Some(v) => list_value(texts(items@)) == Some(v@) && v@.wf(),
            None => list_value(texts(items@)) is None,
        },
{
    let ghost ts = texts(items@);
    let mut any_float = false;
    let mut i: usize = 0;
    while i < items.len()
        invariant
            i <= items@.len() == ts.len(),
            ts == texts(items@),
            any_float == exists|j: int| 0 <= j < i && written_as_float(#[trigger] ts[j]),
        decreases items@.len() - i,
    {
        if !integer_shape(items[i].as_slice()) {
            assert(written_as_float(ts[i as int]));
            any_float = true;
        }
        i = i + 1;
    }
    let mut out: Vec<Number> = Vec::new();
    let mut k: usize = 0;
    proof {
        assert(ts.subrange(0, 0) =~= Seq::<Seq<char>>::empty());
        assert(out@ =~= Seq::<Number>::empty());
    }
    while k < items.len()
        invariant
            k <= items@.len() == ts.len(),
            ts == texts(items@),
            any_float == exists|j: int| 0 <= j < ts.len() && written_as_float(#[trigger] ts[j]),
            any_float ==> as_decimals(ts.subrange(0, k as int)) == Some(out@),
            forall|j: int| 0 <= j < out@.len() ==> (#[trigger] out@[j]).kind() == if any_float {
                NumKind::F64
            } else {
                NumKind::I32
            },
            !any_float ==> as_i32s(ts.subrange(0, k as int)) == Some(out@),
        decreases items@.len() - k,
    {
        let item = items[k].as_slice();
        proof {
            assert(ts[k as int] == item@);
            assert(ts.subrange(0, k as int + 1).drop_last() =~= ts.subrange(0, k as int));
            assert(ts.subrange(0, k as int + 1).last() == item@);
        }
        if any_float {
            match parse_decimal(item) {
                Some(d) => out.push(Number::F64(d)),
                None => {
                    proof {
                        lemma_decimals_none(ts, k as int + 1);
                    }
                    return None;
                },
            }
        } else {
            match parse_integer(item) {
                Some(v) => {
                    if i32::MIN as i128 <= v && v <= i32::MAX as i128 {
                        out.push(Number::I32(v as i32));
                    } else {
                        proof {
                            lemma_i32s_none(ts, k as int + 1);
                        }
                        return None;
                    }
                },
                None => {
                    proof {
                        assert(integer_text(item@) is Some);
                        lemma_i32s_none(ts, k as int + 1);
                    }
                    return None;
                },
            }
        }
        k = k + 1;
    }
    proof {
        assert(ts.subrange(0, ts.len() as int) =~= ts);
    }
    if any_float {
        Some(Value::Vector(NumKind::F64, out))
    } else {
        Some(Value::Vector(NumKind::I32, out))
    }
}

proof fn lemma_decimals_none(ts: Seq<Seq<char>>, k: int)
    requires
        1 <= k <= ts.len(),
        as_decimals(ts.subrange(0, k)) is None,
    ensures
        as_decimals(ts) is None,
    decreases ts.len() - k,
{
    if k < ts.len() {
        assert(ts.subrange(0, k + 1).drop_last() =~= ts.subrange(0, k));
        lemma_decimals_none(ts, k + 1);
    } else {
        assert(ts.subrange(0, k) =~= ts);
    }
}

proof fn lemma_i32s_none(ts: Seq<Seq<char>>, k: int)
    requires
        1 <= k <= ts.len(),
        as_i32s(ts.subrange(0, k)) is None,
    ensures
        as_i32s(ts) is None,
    decreases ts.len() - k,
{
    if k < ts.len() {
        assert(ts.subrange(0, k + 1).drop_last() =~= ts.subrange(0, k));
        lemma_i32s_none(ts, k + 1);
    } else {
        assert(ts.subrange(0, k) =~= ts);
    }
}

} // verus!
