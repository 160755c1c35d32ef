use vstd::prelude::*;
use crate::numbers::{
    convert_items, convert_items_strict, convert_number, number_to_kind, text_to_number,
    text_to_number_exec, lemma_convert_items_push, lemma_converted_kinds,
};
use crate::value::{NumKind, Number, TypeKey, Value, ValueView, views, type_keys};
use crate::parts::Function;
use crate::text::chars_of;

verus! {

/// The score reserved for conversions between representationally equivalent types.
pub const EQUIVALENT: i32 = 200;

/// How a conversion rule turns a value of its source type into one of its target type.
pub enum Converter {
    /// the value itself; an owned vector also serves as a view over its elements
    Identity,
    /// a number converted to another numeric kind
    Numeric,
    /// text read as a number
    ParseText,
    /// a vector whose elements are each converted to the target's element kind; elements
    /// that do not convert are left out
    Elementwise,
    /// a vector whose elements are each converted to the target's element kind; the
    /// conversion fails if any element does not convert
    ElementwiseStrict,
    /// text naming one of the given tags of a user type
    Tags(Vec<String>),
}

/// A conversion rule: its score, and how it converts.
pub struct Conversions {
    pub score: i32,
    pub convert: Converter,
}

/// The table of conversion rules, keyed by (source type, target type). A rule registered
/// for a pair replaces any earlier rule for that pair.
pub struct ConversionTable {
    entries: Vec<(TypeKey, TypeKey, Conversions)>,
}

pub open spec fn opt_view(r: Option<Value>) -> Option<ValueView> {
    match r {
        Some(v) => Some(v@),
        None => None,
    }
}

/// The first index from `i` on at which `names` holds `t`.
pub open spec fn tag_index(names: Seq<String>, t: Seq<char>, i: int) -> Option<int>
    decreases names.len() - i,
{
    if i < 0 || i >= names.len() {
        None
    } else if names[i]@ == t {
        Some(i)
    } else {
        tag_index(names, t, i + 1)
    }
}

/// What converting the value `v` to the type `to` with `c` gives, if anything.
pub open spec fn convert_value(c: Converter, v: ValueView, to: TypeKey) -> Option<ValueView> {
    match c {
        Converter::Identity => if to == v.type_key() {
            Some(v)
        } else {
            match (v, to) {
                (ValueView::Vector(k, items), TypeKey::View(k2)) => if k == k2 {
                    Some(ValueView::View(k, items))
                } else {
                    None
                },
                _ => None,
            }
        },
        Converter::Numeric => match (v, to) {
            (ValueView::Num(n), TypeKey::Num(k)) => match convert_number(n, k) {
                Some(m) => Some(ValueView::Num(m)),
                None => None,
            },
            _ => None,
        },
        Converter::ParseText => match (v, to) {
            (ValueView::Text(t), TypeKey::Num(k)) => match text_to_number(t, k) {
                Some(m) => Some(ValueView::Num(m)),
                None => None,
            },
            _ => None,
        },
        Converter::Elementwise => match (v, to) {
            (ValueView::Vector(_, items), TypeKey::View(k)) => Some(
                ValueView::View(k, convert_items(items, k)),
            ),
            (ValueView::Vector(_, items), TypeKey::Vector(k)) => Some(
                ValueView::Vector(k, convert_items(items, k)),
            ),
            _ => None,
        },
        Converter::ElementwiseStrict => match (v, to) {
            (ValueView::Vector(_, items), TypeKey::View(k)) => match convert_items_strict(items, k) {
                Some(s) => Some(ValueView::View(k, s)),
                None => None,
            },
            (ValueView::Vector(_, items), TypeKey::Vector(k)) => match convert_items_strict(items, k) {
                Some(s) => Some(ValueView::Vector(k, s)),
                None => None,
            },
            _ => None,
        },
        Converter::Tags(names) => match (v, to) {
            (ValueView::Text(t), TypeKey::User(class)) => match tag_index(names@, t, 0) {
                Some(i) => Some(ValueView::Tag(class, i as u64)),
                None => None,
            },
            _ => None,
        },
    }
}

/// The rules that a sequence of entries holds: later entries replace earlier ones.
pub open spec fn rules_of(s: Seq<(TypeKey, TypeKey, Conversions)>) -> Map<(TypeKey, TypeKey), Conversions>
    decreases s.len(),
{
    if s.len() == 0 {
        Map::empty()
    } else {
        rules_of(s.drop_last()).insert((s.last().0, s.last().1), s.last().2)
    }
}

pub open spec fn rule_for(m: Map<(TypeKey, TypeKey), Conversions>, from: TypeKey, to: TypeKey) -> Option<Conversions> {
    if m.contains_key((from, to)) { Some(m[(from, to)]) } else { None }
}

impl View for ConversionTable {
    type V = Map<(TypeKey, TypeKey), Conversions>;

    closed spec fn view(&self) -> Map<(TypeKey, TypeKey), Conversions> {
        rules_of(self.entries@)
    }
}

proof fn lemma_rules_prefix(s: Seq<(TypeKey, TypeKey, Conversions)>, n: int, from: TypeKey, to: TypeKey)
    requires
        0 <= n <= s.len(),
        forall|j: int| n <= j < s.len() ==> !(#[trigger] s[j].0 == from && s[j].1 == to),
    ensures
        rule_for(rules_of(s), from, to) == rule_for(rules_of(s.subrange(0, n)), from, to),
    decreases s.len(),
{
    if s.len() > n {
        assert(s.drop_last().subrange(0, n) =~= s.subrange(0, n));
        lemma_rules_prefix(s.drop_last(), n, from, to);
    } else {
        assert(s.subrange(0, n) =~= s);
    }
}

/// Applies a converter to a value (see `convert_value`).
pub fn apply_converter(c: &Converter, v: Value, to: TypeKey) -> (r: Option<Value>)
    ensures
        opt_view(r) == convert_value(*c, v@, to),
        v@.wf() ==> (r matches Some(x) ==> x@.wf()),
{
    proof {
        match (v@, to) {
            (ValueView::Vector(_, items), TypeKey::View(k)) => lemma_converted_kinds(items, k),
            (ValueView::Vector(_, items), TypeKey::Vector(k)) => lemma_converted_kinds(items, k),
            _ => {},
        }
    }
    match c {
        Converter::Identity => {
            let t = v.type_key();
            if to == t {
                return Some(v);
            }
            match (v, to) {
                (Value::Vector(k, items), TypeKey::View(k2)) => if k == k2 {
                    Some(Value::View(k, items))
                } else {
                    None
                },
                _ => None,
            }
        },
        Converter::Numeric => match (v, to) {
            (Value::Num(n), TypeKey::Num(k)) => match number_to_kind(n, k) {
                Some(m) => Some(Value::Num(m)),
                None => None,
            },
            _ => None,
        },
        Converter::ParseText => match (v, to) {
            (Value::Text(t), TypeKey::Num(k)) => {
                let cs = chars_of(t.as_str());
                match text_to_number_exec(cs.as_slice(), k) {
                    Some(m) => Some(Value::Num(m)),
                    None => None,
                }
            },
            _ => None,
        },
        Converter::Elementwise => match (v, to) {
            (Value::Vector(_, items), TypeKey::View(k)) => Some(Value::View(k, convert_all_items(&items, k))),
            (Value::Vector(_, items), TypeKey::Vector(k)) => Some(Value::Vector(k, convert_all_items(&items, k))),
            _ => None,
        },
        Converter::ElementwiseStrict => match (v, to) {
            (Value::Vector(_, items), TypeKey::View(k)) => match convert_every_item(&items, k) {
                Some(out) => Some(Value::View(k, out)),
                None => None,
            },
            (Value::Vector(_, items), TypeKey::Vector(k)) => match convert_every_item(&items, k) {
                Some(out) => Some(Value::Vector(k, out)),
                None => None,
            },
            _ => None,
        },
        Converter::Tags(names) => match (v, to) {
            (Value::Text(t), TypeKey::User(class)) => match find_tag(names, &t) {
                Some(i) => Some(Value::Tag(class, i as u64)),
                None => None,
            },
            _ => None,
        },
    }
}

/// The first position of `t` in `names`.
fn find_tag(names: &Vec<String>, t: &String) -> (r: Option<usize>)
    ensures
        match r {
            Some(i) => tag_index(names@, t@, 0) == Some(i as int),
            None => tag_index(names@, t@, 0) is None,
        },
{
    let mut i: usize = 0;
    while i < names.len()
        invariant
            i <= names@.len(),
            tag_index(names@, t@, 0) == tag_index(names@, t@, i as int),
        decreases names@.len() - i,
    {
        if names[i] == *t {
            return Some(i);
        }
        i = i + 1;
    }
    None
}

/// Converts each number of `items` to the kind `k`; `None` if any does not convert.
fn convert_every_item(items: &Vec<Number>, k: NumKind) -> (r: Option<Vec<Number>>)
    ensures
        match r {
            Some(v) => convert_items_strict(items@, k) == Some(v@),
            None => convert_items_strict(items@, k) is None,
        },
{
    let mut out: Vec<Number> = Vec::new();
    let mut i: usize = 0;
    while i < items.len()
        invariant
            i <= items@.len(),
            convert_items_strict(items@.subrange(0, i as int), k) == Some(out@),
        decreases items@.len() - i,
    {
        proof {
            assert(items@.subrange(0, i as int + 1).drop_last() =~= items@.subrange(0, i as int));
        }
        match number_to_kind(items[i], k) {
            Some(n) => out.push(n),
            None => {
                proof {
                    lemma_strict_none(items@, k, i as int + 1);
                }
                return None;
            },
        }
        i = i + 1;
    }
    proof {
        assert(items@.subrange(0, items@.len() as int) =~= items@);
    }
    Some(out)
}

proof fn lemma_strict_none(s: Seq<Number>, k: NumKind, n: int)
    requires
        1 <= n <= s.len(),
        convert_items_strict(s.subrange(0, n), k) is None,
    ensures
        convert_items_strict(s, k) is None,
    decreases s.len() - n,
{
    if n < s.len() {
        assert(s.subrange(0, n + 1).drop_last() =~= s.subrange(0, n));
        lemma_strict_none(s, k, n + 1);
    } else {
        assert(s.subrange(0, n) =~= s);
    }
}

/// Converts each number of `items` to the kind `k`, leaving out those that do not convert.
fn convert_all_items(items: &Vec<Number>, k: NumKind) -> (r: Vec<Number>)
    ensures
        r@ == convert_items(items@, k),
{
    let mut out: Vec<Number> = Vec::new();
    let mut i: usize = 0;
    while i < items.len()
        invariant
            i <= items@.len(),
            out@ == convert_items(items@.subrange(0, i as int), k),
        decreases items@.len() - i,
    {
        proof {
            lemma_convert_items_push(items@.subrange(0, i as int), items@[i as int], k);
            assert(items@.subrange(0, i as int).push(items@[i as int]) =~= items@.subrange(0, i as int + 1));
        }
        match number_to_kind(items[i], k) {
            Some(n) => out.push(n),
            None => {},
        }
        i = i + 1;
    }
    proof {
        assert(items@.subrange(0, items@.len() as int) =~= items@);
    }
    out
}

/// The total score of arguments of types `args` against parameters `params`: `-200` when
/// the counts differ, `-100` when some position has no rule, else the sum of the scores of
/// the rules from each argument's type to its parameter's type.
pub open spec fn score_spec(m: Map<(TypeKey, TypeKey), Conversions>, params: Seq<TypeKey>, args: Seq<TypeKey>) -> int {
    if params.len() != args.len() {
        -200
    } else {
        match partial_score(m, params, args, params.len() as int) {
            Some(s) => s,
            None => -100,
        }
    }
}

/// The sum of the rule scores over the first `n` positions, or `None` where one has no rule.
pub open spec fn partial_score(
    m: Map<(TypeKey, TypeKey), Conversions>,
    params: Seq<TypeKey>,
    args: Seq<TypeKey>,
    n: int,
) -> Option<int>
    decreases n,
{
    if n <= 0 {
        Some(0)
    } else {
        match partial_score(m, params, args, n - 1) {
            Some(s) => match rule_for(m, args[n - 1], params[n - 1]) {
                Some(r) => Some(s + r.score),
                None => None,
            },
            None => None,
        }
    }
}

/// Whether arguments of types `args` fit parameters `params` without conversion: equal
/// counts, and at each position the same type or a rule of the reserved equivalent score.
pub open spec fn matching_spec(m: Map<(TypeKey, TypeKey), Conversions>, params: Seq<TypeKey>, args: Seq<TypeKey>) -> bool {
    &&& params.len() == args.len()
    &&& forall|i: int| 0 <= i < params.len() ==> #[trigger] args[i] == params[i] || (
        rule_for(m, args[i], params[i]) matches Some(r) && r.score == EQUIVALENT)
}

/// The arguments converted, position by position, by the rules to the parameter types;
/// `None` when the counts differ, a position has no rule, or a conversion fails.
pub open spec fn converted_args(m: Map<(TypeKey, TypeKey), Conversions>, params: Seq<TypeKey>, args: Seq<ValueView>) -> Option<Seq<ValueView>> {
    if params.len() != args.len() {
        None
    } else {
        converted_prefix(m, params, args, params.len() as int)
    }
}

pub open spec fn converted_prefix(
    m: Map<(TypeKey, TypeKey), Conversions>,
    params: Seq<TypeKey>,
    args: Seq<ValueView>,
    n: int,
) -> Option<Seq<ValueView>>
    decreases n,
{
    if n <= 0 {
        Some(Seq::empty())
    } else {
        match converted_prefix(m, params, args, n - 1) {
            Some(s) => match rule_for(m, args[n - 1].type_key(), params[n - 1]) {
                Some(r) => match convert_value(r.convert, args[n - 1], params[n - 1]) {
                    Some(v) => Some(s.push(v)),
                    None => None,
                },
                None => None,
            },
            None => None,
        }
    }
}

/// The score of a candidate callable against the arguments.
pub open spec fn candidate_score<F: Function>(m: Map<(TypeKey, TypeKey), Conversions>, c: F, args: Seq<Value>) -> int {
    score_spec(m, c.params_spec(), type_keys(views(args)))
}

/// Candidate `i` fits best: it scores positively, no candidate scores higher, and every
/// earlier candidate scores lower.
pub open spec fn is_best<F: Function>(m: Map<(TypeKey, TypeKey), Conversions>, cands: Seq<F>, args: Seq<Value>, i: int) -> bool {
    &&& 0 <= i < cands.len()
    &&& candidate_score(m, cands[i], args) > 0
    &&& forall|j: int| 0 <= j < cands.len() ==> candidate_score(m, #[trigger] cands[j], args) <= candidate_score(m, cands[i], args)
    &&& forall|j: int| 0 <= j < i ==> candidate_score(m, #[trigger] cands[j], args) < candidate_score(m, cands[i], args)
}

/// The best-fitting candidate, if any scores positively.
pub open spec fn best_candidate<F: Function>(m: Map<(TypeKey, TypeKey), Conversions>, cands: Seq<F>, args: Seq<Value>) -> Option<int> {
    if exists|i: int| is_best(m, cands, args, i) {
        Some(choose|i: int| is_best(m, cands, args, i))
    } else {
        None
    }
}

proof fn lemma_best_unique<F: Function>(m: Map<(TypeKey, TypeKey), Conversions>, cands: Seq<F>, args: Seq<Value>, i: int, k: int)
    requires
        is_best(m, cands, args, i),
        is_best(m, cands, args, k),
    ensures
        i == k,
{
    if i < k {
        assert(candidate_score(m, cands[i], args) < candidate_score(m, cands[k], args));
    } else if k < i {
        assert(candidate_score(m, cands[k], args) < candidate_score(m, cands[i], args));
    }
}

impl ConversionTable {
    /// A table with no rules.
    pub fn new() -> (r: ConversionTable)
        ensures
            r@ == Map::<(TypeKey, TypeKey), Conversions>::empty(),
    {
        ConversionTable { entries: Vec::new() }
    }
}

impl Conversions {
    /// Whether this rule has the reserved equivalent score.
    pub fn is_equivalent(&self) -> (r: bool)
        ensures
            r == (self.score == EQUIVALENT),
    {
        self.score == EQUIVALENT
    }

    /// Registers the rule from `from` to `to`, replacing any earlier one for that pair.
    pub fn add(table: &mut ConversionTable, from: TypeKey, to: TypeKey, score: i32, convert: Converter)
        ensures
            final(table)@ == old(table)@.insert((from, to), Conversions { score, convert }),
    {
        table.entries.push((from, to, Conversions { score, convert }));
        proof {
            assert(final(table).entries@.drop_last() =~= old(table).entries@);
        }
    }

    /// The rule from `from` to `to`, if one is registered.
    pub fn find(table: &ConversionTable, from: TypeKey, to: TypeKey) -> (r: Option<&Conversions>)
        ensures
            match r {
                Some(c) => rule_for(table@, from, to) == Some(*c),
                None => rule_for(table@, from, to) is None,
            },
    {
        let mut i = table.entries.len();
        while i > 0
            invariant
                i <= table.entries@.len(),
                forall|j: int| i <= j < table.entries@.len() ==> !(#[trigger] table.entries@[j].0 == from
                    && table.entries@[j].1 == to),
            decreases i,
        {
            i = i - 1;
            if table.entries[i].0 == from && table.entries[i].1 == to {
                proof {
                    let s = table.entries@;
                    lemma_rules_prefix(s, i + 1, from, to);
                    assert(s.subrange(0, i + 1).drop_last() =~= s.subrange(0, i as int));
                }
                return Some(&table.entries[i].2);
            }
        }
        proof {
            lemma_rules_prefix(table.entries@, 0, from, to);
        }
        None
    }

    /// Scores arguments against parameter types (see `score_spec`); higher is a better fit,
    /// and only a positive score is a fit at all.
    pub fn score(table: &ConversionTable, target: &[TypeKey], args: &[Value]) -> (r: i128)
        ensures
            r == score_spec(table@, target@, type_keys(views(args@))),
    {
        let ghost ts = type_keys(views(args@));
        assert(ts.len() == args@.len());
        if target.len() != args.len() {
            return -200;
        }
        let mut total: i128 = 0;
        let mut i: usize = 0;
        while i < target.len()
            invariant
                i <= target@.len() == args@.len() == ts.len(),
                ts == type_keys(views(args@)),
                partial_score(table@, target@, ts, i as int) == Some(total as int),
                -(i * 0x8000_0000) <= total <= i * 0x8000_0000,
            decreases target@.len() - i,
        {
            let t = args[i].type_key();
            match Conversions::find(table, t, target[i]) {
                Some(c) => {
                    total = total + c.score as i128;
                },
                None => {
                    proof {
                        lemma_partial_none(table@, target@, ts, i as int + 1, target@.len() as int);
                    }
                    return -100;
                },
            }
            i = i + 1;
        }
        total
    }

    /// Whether the arguments fit the parameter types without conversion (see `matching_spec`).
    pub fn matching(table: &ConversionTable, params: &[TypeKey], args: &[Value]) -> (r: bool)
        ensures
            r == matching_spec(table@, params@, type_keys(views(args@))),
    {
        let ghost ts = type_keys(views(args@));
        assert(ts.len() == args@.len());
        if params.len() != args.len() {
            return false;
        }
        let mut i: usize = 0;
        while i < params.len()
            invariant
                i <= params@.len() == args@.len() == ts.len(),
                ts == type_keys(views(args@)),
                forall|j: int| 0 <= j < i ==> #[trigger] ts[j] == params@[j] || (
                    rule_for(table@, ts[j], params@[j]) matches Some(r) && r.score == EQUIVALENT),
            decreases params@.len() - i,
        {
            let t = args[i].type_key();
            assert(ts[i as int] == t);
            if t != params[i] {
                match Conversions::find(table, t, params[i]) {
                    Some(c) => if !c.is_equivalent() {
                        return false;
                    },
                    None => return false,
                }
            }
            i = i + 1;
        }
        true
    }

    /// The candidate that fits the arguments best: the first of those with the highest
    /// score, if that score is positive.
    pub fn find_best_match<F: Function>(table: &ConversionTable, candidates: &[F], args: &[Value]) -> (r: Option<usize>)
        ensures
            match r {
                Some(i) => best_candidate(table@, candidates@, args@) == Some(i as int),
                None => best_candidate(table@, candidates@, args@) is None,
            },
            r is None <==> forall|j: int| 0 <= j < candidates@.len() ==> candidate_score(table@, #[trigger] candidates@[j], args@) <= 0,
            r matches Some(i) ==> {
                &&& i < candidates@.len()
                &&& candidate_score(table@, candidates@[i as int], args@) > 0
                &&& forall|j: int| 0 <= j < candidates@.len() ==> candidate_score(table@, #[trigger] candidates@[j], args@)
                    <= candidate_score(table@, candidates@[i as int], args@)
                &&& forall|j: int| 0 <= j < i ==> candidate_score(table@, #[trigger] candidates@[j], args@)
                    < candidate_score(table@, candidates@[i as int], args@)
            },
    {
        let mut best: usize = 0;
        let mut best_score: i128 = -100;
        let mut i: usize = 0;
        while i < candidates.len()
            invariant
                i <= candidates@.len(),
                best_score >= -100,
                best_score > -100 ==> best < i && candidate_score(table@, candidates@[best as int], args@) == best_score,
                best_score > -100 ==> forall|j: int| 0 <= j < best ==> candidate_score(table@, #[trigger] candidates@[j], args@) < best_score,
                best_score == -100 ==> forall|j: int| 0 <= j < i ==> candidate_score(table@, #[trigger] candidates@[j], args@) <= -100,
                forall|j: int| 0 <= j < i ==> candidate_score(table@, #[trigger] candidates@[j], args@) <= best_score,
            decreases candidates@.len() - i,
        {
            let s = Conversions::score(table, candidates[i].arg_types(), args);
            if s > best_score {
                best = i;
                best_score = s;
            }
            i = i + 1;
        }
        if best_score > 0 {
            proof {
                assert(is_best(table@, candidates@, args@, best as int));
                let k = choose|k: int| is_best(table@, candidates@, args@, k);
                lemma_best_unique(table@, candidates@, args@, best as int, k);
            }
            Some(best)
        } else {
            proof {
                if exists|k: int| is_best(table@, candidates@, args@, k) {
                    let k = choose|k: int| is_best(table@, candidates@, args@, k);
                    assert(candidate_score(table@, candidates@[k], args@) > 0);
                }
            }
            None
        }
    }

    /// Converts the arguments to the parameter types (see `converted_args`); all of them or
    /// none.
    pub fn convert_argv(table: &ConversionTable, parameters: &[TypeKey], args: Vec<Value>) -> (r: Option<Vec<Value>>)
        ensures
            match r {
                Some(v) => converted_args(table@, parameters@, views(args@)) == Some(views(v@)),
                None => converted_args(table@, parameters@, views(args@)) is None,
            },
    {
        let ghost vs = views(args@);
        let n = args.len();
        if parameters.len() != n {
            return None;
        }
        let mut rest = args;
        let mut out: Vec<Value> = Vec::new();
        let mut i: usize = 0;
        while i < n
            invariant
                i <= n == parameters@.len() == vs.len(),
                vs == views(args@),
                views(rest@) == vs.subrange(i as int, n as int),
                converted_prefix(table@, parameters@, vs, i as int) == Some(views(out@)),
            decreases n - i,
        {
            proof {
                assert(views(rest@).len() == rest@.len());
                assert(views(rest@)[0] == vs[i as int]);
            }
            let ghost before = rest@;
            let a = rest.remove(0);
            proof {
                assert forall|k: int| 0 <= k < rest@.len() implies #[trigger] views(rest@)[k] == vs[i + 1 + k] by {
                    assert(rest@[k] == before[k + 1]);
                    assert(views(before)[k + 1] == before[k + 1]@);
                }
                assert(views(rest@) =~= vs.subrange(i as int + 1, n as int));
                assert(views(before)[0] == before[0]@);
                assert(a@ == vs[i as int]);
            }
            let t = a.type_key();
            match Conversions::find(table, t, parameters[i]) {
                Some(c) => match apply_converter(&c.convert, a, parameters[i]) {
                    Some(v) => {
                        let ghost prev = out@;
                        out.push(v);
                        proof {
                            assert(views(out@) =~= views(prev).push(v@));
                        }
                    },
                    None => {
                        proof {
                            lemma_prefix_none(table@, parameters@, vs, i as int + 1, n as int);
                        }
                        return None;
                    },
                },
                None => {
                    proof {
                        lemma_prefix_none(table@, parameters@, vs, i as int + 1, n as int);
                    }
                    return None;
                },
            }
            i = i + 1;
        }
        Some(out)
    }
}

proof fn lemma_partial_none(
    m: Map<(TypeKey, TypeKey), Conversions>,
    params: Seq<TypeKey>,
    args: Seq<TypeKey>,
    k: int,
    n: int,
)
    requires
        1 <= k <= n,
        partial_score(m, params, args, k) is None,
    ensures
        partial_score(m, params, args, n) is None,
    decreases n - k,
{
    if k < n {
        lemma_partial_none(m, params, args, k + 1, n);
    }
}

proof fn lemma_prefix_none(
    m: Map<(TypeKey, TypeKey), Conversions>,
    params: Seq<TypeKey>,
    args: Seq<ValueView>,
    k: int,
    n: int,
)
    requires
        1 <= k <= n,
        converted_prefix(m, params, args, k) is None,
    ensures
        converted_prefix(m, params, args, n) is None,
    decreases n - k,
{
    if k < n {
        lemma_prefix_none(m, params, args, k + 1, n);
    }
}

/// The rules every table starts from: each primitive, text, vector and view type to itself
/// (equivalent), numeric conversions between the primitive numbers, text read as a number,
/// an owned vector as a view over its own elements (equivalent), and an integer vector as a
/// view over decimals, element by element.
pub open spec fn baseline_rules() -> Map<(TypeKey, TypeKey), Conversions> {
    Map::empty()
        .insert(
            (TypeKey::Num(NumKind::I32), TypeKey::Num(NumKind::I32)),
            Conversions { score: EQUIVALENT, convert: Converter::Identity },
        )
        .insert(
            (TypeKey::Num(NumKind::I32), TypeKey::Num(NumKind::I64)),
            Conversions { score: 150, convert: Converter::Numeric },
        )
        .insert(
            (TypeKey::Num(NumKind::I32), TypeKey::Num(NumKind::U32)),
            Conversions { score: 150, convert: Converter::Numeric },
        )
        .insert(
            (TypeKey::Num(NumKind::I32), TypeKey::Num(NumKind::U64)),
            Conversions { score: 100, convert: Converter::Numeric },
        )
        .insert(
            (TypeKey::Num(NumKind::I32), TypeKey::Num(NumKind::F64)),
            Conversions { score: 150, convert: Converter::Numeric },
        )
        .insert(
            (TypeKey::Num(NumKind::U32), TypeKey::Num(NumKind::U32)),
            Conversions { score: EQUIVALENT, convert: Converter::Identity },
        )
        .insert(
            (TypeKey::Num(NumKind::U32), TypeKey::Num(NumKind::I32)),
            Conversions { score: 150, convert: Converter::Numeric },
        )
        .insert(
            (TypeKey::Num(NumKind::U32), TypeKey::Num(NumKind::I64)),
            Conversions { score: 150, convert: Converter::Numeric },
        )
        .insert(
            (TypeKey::Num(NumKind::U32), TypeKey::Num(NumKind::U64)),
            Conversions { score: 150, convert: Converter::Numeric },
        )
        .insert(
            (TypeKey::Num(NumKind::U32), TypeKey::Num(NumKind::F64)),
            Conversions { score: 150, convert: Converter::Numeric },
        )
        .insert(
            (TypeKey::Num(NumKind::I64), TypeKey::Num(NumKind::I64)),
            Conversions { score: EQUIVALENT, convert: Converter::Identity },
        )
        .insert(
            (TypeKey::Num(NumKind::I64), TypeKey::Num(NumKind::I32)),
            Conversions { score: 100, convert: Converter::Numeric },
        )
        .insert(
            (TypeKey::Num(NumKind::I64), TypeKey::Num(NumKind::U32)),
            Conversions { score: 100, convert: Converter::Numeric },
        )
        .insert(
            (TypeKey::Num(NumKind::I64), TypeKey::Num(NumKind::U64)),
            Conversions { score: 150, convert: Converter::Numeric },
        )
        .insert(
            (TypeKey::Num(NumKind::I64), TypeKey::Num(NumKind::F64)),
            Conversions { score: 100, convert: Converter::Numeric },
        )
        .insert(
            (TypeKey::Num(NumKind::U64), TypeKey::Num(NumKind::U64)),
            Conversions { score: EQUIVALENT, convert: Converter::Identity },
        )
        .insert(
            (TypeKey::Num(NumKind::U64), TypeKey::Num(NumKind::I32)),
            Conversions { score: 100, convert: Converter::Numeric },
        )
        .insert(
            (TypeKey::Num(NumKind::U64), TypeKey::Num(NumKind::U32)),
            Conversions { score: 100, convert: Converter::Numeric },
        )
        .insert(
            (TypeKey::Num(NumKind::U64), TypeKey::Num(NumKind::I64)),
            Conversions { score: 150, convert: Converter::Numeric },
        )
        .insert(
            (TypeKey::Num(NumKind::U64), TypeKey::Num(NumKind::F64)),
            Conversions { score: 100, convert: Converter::Numeric },
        )
        .insert(
            (TypeKey::Num(NumKind::F64), TypeKey::Num(NumKind::F64)),
            Conversions { score: EQUIVALENT, convert: Converter::Identity },
        )
        .insert(
            (TypeKey::Num(NumKind::F64), TypeKey::Num(NumKind::I32)),
            Conversions { score: 150, convert: Converter::Numeric },
        )
        .insert(
            (TypeKey::Num(NumKind::F64), TypeKey::Num(NumKind::U32)),
            Conversions { score: 100, convert: Converter::Numeric },
        )
        .insert(
            (TypeKey::Num(NumKind::F64), TypeKey::Num(NumKind::U64)),
            Conversions { score: 150, convert: Converter::Numeric },
        )
        .insert(
            (TypeKey::Num(NumKind::F64), TypeKey::Num(NumKind::I64)),
            Conversions { score: 150, convert: Converter::Numeric },
        )
        .insert(
            (TypeKey::Text, TypeKey::Text),
            Conversions { score: EQUIVALENT, convert: Converter::Identity },
        )
        .insert(
            (TypeKey::Text, TypeKey::Num(NumKind::I32)),
            Conversions { score: 50, convert: Converter::ParseText },
        )
        .insert(
            (TypeKey::Text, TypeKey::Num(NumKind::U32)),
            Conversions { score: 50, convert: Converter::ParseText },
        )
        .insert(
            (TypeKey::Text, TypeKey::Num(NumKind::I64)),
            Conversions { score: 50, convert: Converter::ParseText },
        )
        .insert(
            (TypeKey::Text, TypeKey::Num(NumKind::U64)),
            Conversions { score: 50, convert: Converter::ParseText },
        )
        .insert(
            (TypeKey::Text, TypeKey::Num(NumKind::F64)),
            Conversions { score: 50, convert: Converter::ParseText },
        )
        .insert(
            (TypeKey::Vector(NumKind::I32), TypeKey::Vector(NumKind::I32)),
            Conversions { score: EQUIVALENT, convert: Converter::Identity },
        )
        .insert(
            (TypeKey::View(NumKind::I32), TypeKey::View(NumKind::I32)),
            Conversions { score: EQUIVALENT, convert: Converter::Identity },
        )
        .insert(
            (TypeKey::Vector(NumKind::I32), TypeKey::View(NumKind::I32)),
            Conversions { score: EQUIVALENT, convert: Converter::Identity },
        )
        .insert(
            (TypeKey::Vector(NumKind::U32), TypeKey::Vector(NumKind::U32)),
            Conversions { score: EQUIVALENT, convert: Converter::Identity },
        )
        .insert(
            (TypeKey::View(NumKind::U32), TypeKey::View(NumKind::U32)),
            Conversions { score: EQUIVALENT, convert: Converter::Identity },
        )
        .insert(
            (TypeKey::Vector(NumKind::U32), TypeKey::View(NumKind::U32)),
            Conversions { score: EQUIVALENT, convert: Converter::Identity },
        )
        .insert(
            (TypeKey::Vector(NumKind::I64), TypeKey::Vector(NumKind::I64)),
            Conversions { score: EQUIVALENT, convert: Converter::Identity },
        )
        .insert(
            (TypeKey::View(NumKind::I64), TypeKey::View(NumKind::I64)),
            Conversions { score: EQUIVALENT, convert: Converter::Identity },
        )
        .insert(
            (TypeKey::Vector(NumKind::I64), TypeKey::View(NumKind::I64)),
            Conversions { score: EQUIVALENT, convert: Converter::Identity },
        )
        .insert(
            (TypeKey::Vector(NumKind::U64), TypeKey::Vector(NumKind::U64)),
            Conversions { score: EQUIVALENT, convert: Converter::Identity },
        )
        .insert(
            (TypeKey::View(NumKind::U64), TypeKey::View(NumKind::U64)),
            Conversions { score: EQUIVALENT, convert: Converter::Identity },
        )
        .insert(
            (TypeKey::Vector(NumKind::U64), TypeKey::View(NumKind::U64)),
            Conversions { score: EQUIVALENT, convert: Converter::Identity },
        )
        .insert(
            (TypeKey::Vector(NumKind::F64), TypeKey::Vector(NumKind::F64)),
            Conversions { score: EQUIVALENT, convert: Converter::Identity },
        )
        .insert(
            (TypeKey::View(NumKind::F64), TypeKey::View(NumKind::F64)),
            Conversions { score: EQUIVALENT, convert: Converter::Identity },
        )
        .insert(
            (TypeKey::Vector(NumKind::F64), TypeKey::View(NumKind::F64)),
            Conversions { score: EQUIVALENT, convert: Converter::Identity },
        )
        .insert(
            (TypeKey::Vector(NumKind::I32), TypeKey::View(NumKind::F64)),
            Conversions { score: 150, convert: Converter::Elementwise },
        )
}

impl ConversionTable {
    /// A table holding the baseline rules (see `baseline_rules`).
    pub fn baseline() -> (r: ConversionTable)
        ensures
            r@ == baseline_rules(),
    {
        let mut t = ConversionTable::new();
        Conversions::add(&mut t, TypeKey::Num(NumKind::I32), TypeKey::Num(NumKind::I32), EQUIVALENT, Converter::Identity);
        Conversions::add(&mut t, TypeKey::Num(NumKind::I32), TypeKey::Num(NumKind::I64), 150, Converter::Numeric);
        Conversions::add(&mut t, TypeKey::Num(NumKind::I32), TypeKey::Num(NumKind::U32), 150, Converter::Numeric);
        Conversions::add(&mut t, TypeKey::Num(NumKind::I32), TypeKey::Num(NumKind::U64), 100, Converter::Numeric);
        Conversions::add(&mut t, TypeKey::Num(NumKind::I32), TypeKey::Num(NumKind::F64), 150, Converter::Numeric);
        Conversions::add(&mut t, TypeKey::Num(NumKind::U32), TypeKey::Num(NumKind::U32), EQUIVALENT, Converter::Identity);
        Conversions::add(&mut t, TypeKey::Num(NumKind::U32), TypeKey::Num(NumKind::I32), 150, Converter::Numeric);
        Conversions::add(&mut t, TypeKey::Num(NumKind::U32), TypeKey::Num(NumKind::I64), 150, Converter::Numeric);
        Conversions::add(&mut t, TypeKey::Num(NumKind::U32), TypeKey::Num(NumKind::U64), 150, Converter::Numeric);
        Conversions::add(&mut t, TypeKey::Num(NumKind::U32), TypeKey::Num(NumKind::F64), 150, Converter::Numeric);
        Conversions::add(&mut t, TypeKey::Num(NumKind::I64), TypeKey::Num(NumKind::I64), EQUIVALENT, Converter::Identity);
        Conversions::add(&mut t, TypeKey::Num(NumKind::I64), TypeKey::Num(NumKind::I32), 100, Converter::Numeric);
        Conversions::add(&mut t, TypeKey::Num(NumKind::I64), TypeKey::Num(NumKind::U32), 100, Converter::Numeric);
        Conversions::add(&mut t, TypeKey::Num(NumKind::I64), TypeKey::Num(NumKind::U64), 150, Converter::Numeric);
        Conversions::add(&mut t, TypeKey::Num(NumKind::I64), TypeKey::Num(NumKind::F64), 100, Converter::Numeric);
        Conversions::add(&mut t, TypeKey::Num(NumKind::U64), TypeKey::Num(NumKind::U64), EQUIVALENT, Converter::Identity);
        Conversions::add(&mut t, TypeKey::Num(NumKind::U64), TypeKey::Num(NumKind::I32), 100, Converter::Numeric);
        Conversions::add(&mut t, TypeKey::Num(NumKind::U64), TypeKey::Num(NumKind::U32), 100, Converter::Numeric);
        Conversions::add(&mut t, TypeKey::Num(NumKind::U64), TypeKey::Num(NumKind::I64), 150, Converter::Numeric);
        Conversions::add(&mut t, TypeKey::Num(NumKind::U64), TypeKey::Num(NumKind::F64), 100, Converter::Numeric);
        Conversions::add(&mut t, TypeKey::Num(NumKind::F64), TypeKey::Num(NumKind::F64), EQUIVALENT, Converter::Identity);
        Conversions::add(&mut t, TypeKey::Num(NumKind::F64), TypeKey::Num(NumKind::I32), 150, Converter::Numeric);
        Conversions::add(&mut t, TypeKey::Num(NumKind::F64), TypeKey::Num(NumKind::U32), 100, Converter::Numeric);
        Conversions::add(&mut t, TypeKey::Num(NumKind::F64), TypeKey::Num(NumKind::U64), 150, Converter::Numeric);
        Conversions::add(&mut t, TypeKey::Num(NumKind::F64), TypeKey::Num(NumKind::I64), 150, Converter::Numeric);
        Conversions::add(&mut t, TypeKey::Text, TypeKey::Text, EQUIVALENT, Converter::Identity);
        Conversions::add(&mut t, TypeKey::Text, TypeKey::Num(NumKind::I32), 50, Converter::ParseText);
        Conversions::add(&mut t, TypeKey::Text, TypeKey::Num(NumKind::U32), 50, Converter::ParseText);
        Conversions::add(&mut t, TypeKey::Text, TypeKey::Num(NumKind::I64), 50, Converter::ParseText);
        Conversions::add(&mut t, TypeKey::Text, TypeKey::Num(NumKind::U64), 50, Converter::ParseText);
        Conversions::add(&mut t, TypeKey::Text, TypeKey::Num(NumKind::F64), 50, Converter::ParseText);
        Conversions::add(&mut t, TypeKey::Vector(NumKind::I32), TypeKey::Vector(NumKind::I32), EQUIVALENT, Converter::Identity);
        Conversions::add(&mut t, TypeKey::View(NumKind::I32), TypeKey::View(NumKind::I32), EQUIVALENT, Converter::Identity);
        Conversions::add(&mut t, TypeKey::Vector(NumKind::I32), TypeKey::View(NumKind::I32), EQUIVALENT, Converter::Identity);
        Conversions::add(&mut t, TypeKey::Vector(NumKind::U32), TypeKey::Vector(NumKind::U32), EQUIVALENT, Converter::Identity);
        Conversions::add(&mut t, TypeKey::View(NumKind::U32), TypeKey::View(NumKind::U32), EQUIVALENT, Converter::Identity);
        Conversions::add(&mut t, TypeKey::Vector(NumKind::U32), TypeKey::View(NumKind::U32), EQUIVALENT, Converter::Identity);
        Conversions::add(&mut t, TypeKey::Vector(NumKind::I64), TypeKey::Vector(NumKind::I64), EQUIVALENT, Converter::Identity);
        Conversions::add(&mut t, TypeKey::View(NumKind::I64), TypeKey::View(NumKind::I64), EQUIVALENT, Converter::Identity);
        Conversions::add(&mut t, TypeKey::Vector(NumKind::I64), TypeKey::View(NumKind::I64), EQUIVALENT, Converter::Identity);
        Conversions::add(&mut t, TypeKey::Vector(NumKind::U64), TypeKey::Vector(NumKind::U64), EQUIVALENT, Converter::Identity);
        Conversions::add(&mut t, TypeKey::View(NumKind::U64), TypeKey::View(NumKind::U64), EQUIVALENT, Converter::Identity);
        Conversions::add(&mut t, TypeKey::Vector(NumKind::U64), TypeKey::View(NumKind::U64), EQUIVALENT, Converter::Identity);
        Conversions::add(&mut t, TypeKey::Vector(NumKind::F64), TypeKey::Vector(NumKind::F64), EQUIVALENT, Converter::Identity);
        Conversions::add(&mut t, TypeKey::View(NumKind::F64), TypeKey::View(NumKind::F64), EQUIVALENT, Converter::Identity);
        Conversions::add(&mut t, TypeKey::Vector(NumKind::F64), TypeKey::View(NumKind::F64), EQUIVALENT, Converter::Identity);
        Conversions::add(&mut t, TypeKey::Vector(NumKind::I32), TypeKey::View(NumKind::F64), 150, Converter::Elementwise);
        t
    }
}

/// A conversion by `Converter::Identity` to a value's own type gives back that value.
pub proof fn lemma_identity_round_trip(v: ValueView)
    ensures
        convert_value(Converter::Identity, v, v.type_key()) == Some(v),
{
}

/// A numeric conversion of a number to its own kind gives back that number.
pub proof fn lemma_numeric_round_trip(n: Number)
    ensures
        convert_value(Converter::Numeric, ValueView::Num(n), TypeKey::Num(n.kind())) == Some(ValueView::Num(n)),
{
}

/// In the baseline table, every value of a primitive, text, vector or view type converts
/// to its own type by an equivalent rule, and the conversion gives back the value itself.
pub proof fn lemma_baseline_self_conversion(v: ValueView)
    requires
        !(v.type_key() is User),
    ensures
        rule_for(baseline_rules(), v.type_key(), v.type_key()) == Some(
            Conversions { score: EQUIVALENT, convert: Converter::Identity },
        ),
        convert_value(Converter::Identity, v, v.type_key()) == Some(v),
{
}

/// Raising the score of one argument's rule, all else equal, raises the total score, where
/// every position has a rule.
pub proof fn lemma_score_monotone(
    m: Map<(TypeKey, TypeKey), Conversions>,
    params: Seq<TypeKey>,
    a: Seq<TypeKey>,
    b: Seq<TypeKey>,
    k: int,
)
    requires
        params.len() == a.len() == b.len(),
        0 <= k < a.len(),
        forall|i: int| 0 <= i < a.len() && i != k ==> #[trigger] a[i] == b[i],
        forall|i: int| 0 <= i < a.len() ==> #[trigger] rule_for(m, a[i], params[i]) is Some,
        rule_for(m, b[k], params[k]) is Some,
        rule_for(m, b[k], params[k])->0.score > rule_for(m, a[k], params[k])->0.score,
    ensures
        score_spec(m, params, b) > score_spec(m, params, a),
{
    lemma_partial_shift(m, params, a, b, k, a.len() as int);
}

proof fn lemma_partial_shift(
    m: Map<(TypeKey, TypeKey), Conversions>,
    params: Seq<TypeKey>,
    a: Seq<TypeKey>,
    b: Seq<TypeKey>,
    k: int,
    n: int,
)
    requires
        params.len() == a.len() == b.len(),
        0 <= k < a.len(),
        0 <= n <= a.len(),
        forall|i: int| 0 <= i < a.len() && i != k ==> #[trigger] a[i] == b[i],
        forall|i: int| 0 <= i < a.len() ==> #[trigger] rule_for(m, a[i], params[i]) is Some,
        rule_for(m, b[k], params[k]) is Some,
    ensures
        partial_score(m, params, a, n) is Some,
        partial_score(m, params, b, n) is Some,
        n <= k ==> partial_score(m, params, b, n) == partial_score(m, params, a, n),
        n > k ==> partial_score(m, params, b, n)->0 == partial_score(m, params, a, n)->0 + rule_for(
            m,
            b[k],
            params[k],
        )->0.score - rule_for(m, a[k], params[k])->0.score,
    decreases n,
{
    if n > 0 {
        lemma_partial_shift(m, params, a, b, k, n - 1);
        assert(rule_for(m, a[n - 1], params[n - 1]) is Some);
        if n - 1 != k {
            assert(a[n - 1] == b[n - 1]);
        }
    }
}

/// No candidate is chosen when none scores positively (in particular, when there are none).
pub proof fn lemma_no_positive_no_match<F: Function>(m: Map<(TypeKey, TypeKey), Conversions>, cands: Seq<F>, args: Seq<Value>)
    requires
        forall|j: int| 0 <= j < cands.len() ==> candidate_score(m, #[trigger] cands[j], args) <= 0,
    ensures
        best_candidate(m, cands, args) is None,
{
    if exists|i: int| is_best(m, cands, args, i) {
        let i = choose|i: int| is_best(m, cands, args, i);
        assert(candidate_score(m, cands[i], args) > 0);
    }
}

/// The one candidate that scores positively is the one chosen.
pub proof fn lemma_single_positive_match<F: Function>(m: Map<(TypeKey, TypeKey), Conversions>, cands: Seq<F>, args: Seq<Value>, i: int)
    requires
        0 <= i < cands.len(),
        candidate_score(m, cands[i], args) > 0,
        forall|j: int| 0 <= j < cands.len() && j != i ==> candidate_score(m, #[trigger] cands[j], args) <= 0,
    ensures
        best_candidate(m, cands, args) == Some(i),
{
    assert(is_best(m, cands, args, i));
    let k = choose|k: int| is_best(m, cands, args, k);
    lemma_best_unique(m, cands, args, i, k);
}

} // verus!
