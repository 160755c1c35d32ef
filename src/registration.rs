use vstd::prelude::*;
use crate::conversions::{ConversionTable, Conversions, Converter, EQUIVALENT};
use crate::parts::{Callable, Constructor, Method, StaticFunction};
use crate::types::TypeInfo;
use crate::value::TypeKey;

verus! {

/// The directory of reflected types, by name, together with the conversion rules that
/// dispatch on them uses.
pub struct Registry<C, M, S> {
    pub types: Vec<TypeInfo<C, M, S>>,
    pub conversions: ConversionTable,
}

/// Every callable of every registered type may be run on any arguments.
pub open spec fn registry_runs_anywhere<C: Constructor, M: Method, S: StaticFunction>(r: Registry<C, M, S>) -> bool {
    forall|i: int| 0 <= i < r.types@.len() ==> (#[trigger] r.types@[i]).runs_anywhere()
}

/// The last position in `s` of a type named `name`.
pub open spec fn last_type_position<C, M, S>(s: Seq<TypeInfo<C, M, S>>, name: Seq<char>, n: int) -> Option<int>
    decreases n,
{
    if n <= 0 {
        None
    } else if s[n - 1].name@ == name {
        Some(n - 1)
    } else {
        last_type_position(s, name, n - 1)
    }
}

/// The position of the type named `name`.
pub open spec fn type_position<C, M, S>(s: Seq<TypeInfo<C, M, S>>, name: Seq<char>) -> Option<int> {
    last_type_position(s, name, s.len() as int)
}

proof fn lemma_last_type_position_bounds<C, M, S>(s: Seq<TypeInfo<C, M, S>>, name: Seq<char>, n: int)
    requires
        n <= s.len(),
    ensures
        last_type_position(s, name, n) matches Some(i) ==> 0 <= i < n && s[i].name@ == name,
    decreases n,
{
    if n > 0 {
        lemma_last_type_position_bounds(s, name, n - 1);
    }
}

proof fn lemma_update_same_name<C, M, S>(
    s: Seq<TypeInfo<C, M, S>>,
    i: int,
    x: TypeInfo<C, M, S>,
    name: Seq<char>,
    n: int,
)
    requires
        0 <= i < s.len(),
        n <= s.len(),
        x.name@ == s[i].name@,
    ensures
        last_type_position(s.update(i, x), name, n) == last_type_position(s, name, n),
    decreases n,
{
    if n > 0 {
        lemma_update_same_name(s, i, x, name, n - 1);
    }
}

proof fn lemma_push_other_name<C, M, S>(s: Seq<TypeInfo<C, M, S>>, x: TypeInfo<C, M, S>, name: Seq<char>, n: int)
    requires
        n <= s.len(),
    ensures
        last_type_position(s.push(x), name, n) == last_type_position(s, name, n),
    decreases n,
{
    if n > 0 {
        lemma_push_other_name(s, x, name, n - 1);
    }
}

fn index_of<C, M, S>(types: &Vec<TypeInfo<C, M, S>>, name: &str) -> (r: Option<usize>)
    ensures
        match r {
            Some(i) => type_position(types@, name@) == Some(i as int) && i < types@.len(),
            None => type_position(types@, name@) is None,
        },
{
    let key = name.to_owned();
    let mut i = types.len();
    while i > 0
        invariant
            i <= types@.len(),
            type_position(types@, name@) == last_type_position(types@, name@, i as int),
            key@ == name@,
        decreases i,
    {
        if types[i - 1].name == key {
            return Some(i - 1);
        }
        i = i - 1;
    }
    None
}

impl<C, M, S> Registry<C, M, S> {
    /// An empty directory whose conversions are the baseline rules.
    pub fn new() -> (r: Registry<C, M, S>)
        ensures
            r.types@.len() == 0,
            r.conversions@ == crate::conversions::baseline_rules(),
    {
        Registry { types: Vec::new(), conversions: ConversionTable::baseline() }
    }
}

/// The descriptor of the type named `name`, if one is registered.
pub fn find_type<'a, C, M, S>(registry: &'a Registry<C, M, S>, name: &str) -> (r: Option<&'a TypeInfo<C, M, S>>)
    ensures
        match r {
            Some(t) => type_position(registry.types@, name@) matches Some(i) && 0 <= i < registry.types@.len()
                && *t == registry.types@[i],
            None => type_position(registry.types@, name@) is None,
        },
{
    match index_of(&registry.types, name) {
        Some(i) => Some(&registry.types[i]),
        None => None,
    }
}

/// What registering under `name` changes: the descriptor of that name keeps its place,
/// name and identity, and its callables change as `changed` relates the old lists to the
/// new descriptor; where no type has that name, a descriptor of identity `objtype` is
/// appended whose callables relate so to empty lists, together with the equivalent rule
/// from `objtype` to itself. All other types, and otherwise the rules, stay.
pub open spec fn registered<C, M, S>(
    old_reg: Registry<C, M, S>,
    new_reg: Registry<C, M, S>,
    name: Seq<char>,
    objtype: TypeKey,
    changed: spec_fn(Seq<Callable<C>>, Seq<Callable<M>>, Seq<Callable<S>>, TypeInfo<C, M, S>) -> bool,
) -> bool {
    match type_position(old_reg.types@, name) {
        Some(i) => {
            &&& new_reg.types@.len() == old_reg.types@.len()
            &&& forall|j: int| 0 <= j < old_reg.types@.len() && j != i ==> new_reg.types@[j] == #[trigger] old_reg.types@[j]
            &&& new_reg.types@[i].name@ == name
            &&& new_reg.types@[i].objtype == old_reg.types@[i].objtype
            &&& changed(
                old_reg.types@[i].constructors@,
                old_reg.types@[i].methods@,
                old_reg.types@[i].functions@,
                new_reg.types@[i],
            )
            &&& new_reg.conversions@ == old_reg.conversions@
            &&& type_position(new_reg.types@, name) == Some(i)
        },
        None => {
            let n = old_reg.types@.len() as int;
            &&& new_reg.types@.len() == n + 1
            &&& forall|j: int| 0 <= j < n ==> new_reg.types@[j] == #[trigger] old_reg.types@[j]
            &&& new_reg.types@[n].name@ == name
            &&& new_reg.types@[n].objtype == objtype
            &&& changed(Seq::empty(), Seq::empty(), Seq::empty(), new_reg.types@[n])
            &&& new_reg.conversions@ == old_reg.conversions@.insert((objtype, objtype), Conversions { score: EQUIVALENT, convert: Converter::Identity })
            &&& type_position(new_reg.types@, name) == Some(n)
        },
    }
}

/// Puts the descriptor back at position `i`, or, where `i` is `None`, appends it as a new
/// type together with the equivalent rule from its identity to itself.
fn put_back<C, M, S>(registry: &mut Registry<C, M, S>, i: Option<usize>, info: TypeInfo<C, M, S>, Ghost(before): Ghost<Seq<TypeInfo<C, M, S>>>)
    requires
        match i {
            Some(k) => {
                &&& k < before.len()
                &&& old(registry).types@ == before.remove(k as int)
                &&& info.name@ == before[k as int].name@
                &&& type_position(before, info.name@) == Some(k as int)
            },
            None => old(registry).types@ == before && type_position(before, info.name@) is None,
        },
    ensures
        match i {
            Some(k) => {
                &&& final(registry).types@ == before.update(k as int, info)
                &&& final(registry).conversions@ == old(registry).conversions@
                &&& type_position(final(registry).types@, info.name@) == Some(k as int)
            },
            None => {
                &&& final(registry).types@ == before.push(info)
                &&& final(registry).conversions@ == old(registry).conversions@.insert(
                    (info.objtype, info.objtype),
                    Conversions { score: EQUIVALENT, convert: Converter::Identity },
                )
                &&& type_position(final(registry).types@, info.name@) == Some(before.len() as int)
            },
        },
{
    let ghost name = info.name@;
    match i {
        Some(k) => {
            registry.types.insert(k, info);
            proof {
                assert(final(registry).types@ =~= before.update(k as int, info));
                lemma_update_same_name(before, k as int, info, name, before.len() as int);
            }
        },
        None => {
            let t = info.objtype;
            registry.types.push(info);
            Conversions::add(&mut registry.conversions, t, t, EQUIVALENT, Converter::Identity);
        },
    }
}

/// Takes out the descriptor named `name` (or makes a new, empty one of identity
/// `objtype`), to be changed and put back.
fn take_out<C, M, S>(registry: &mut Registry<C, M, S>, name: &str, objtype: TypeKey) -> (r: (Option<usize>, TypeInfo<C, M, S>))
    ensures
        r.1.name@ == name@,
        match r.0 {
            Some(k) => {
                &&& type_position(old(registry).types@, name@) == Some(k as int)
                &&& k < old(registry).types@.len()
                &&& final(registry).types@ == old(registry).types@.remove(k as int)
                &&& r.1 == old(registry).types@[k as int]
            },
            None => {
                &&& type_position(old(registry).types@, name@) is None
                &&& final(registry).types@ == old(registry).types@
                &&& r.1.objtype == objtype
                &&& r.1.constructors@ == Seq::<Callable<C>>::empty()
                &&& r.1.methods@ == Seq::<Callable<M>>::empty()
                &&& r.1.functions@ == Seq::<Callable<S>>::empty()
            },
        },
        final(registry).conversions@ == old(registry).conversions@,
{
    match index_of(&registry.types, name) {
        Some(k) => {
            proof {
                lemma_last_type_position_bounds(registry.types@, name@, registry.types@.len() as int);
            }
            let info = registry.types.remove(k);
            (Some(k), info)
        },
        None => {
            let info = TypeInfo {
                name: name.to_owned(),
                objtype,
                constructors: Vec::new(),
                methods: Vec::new(),
                functions: Vec::new(),
            };
            proof {
                assert(info.constructors@ =~= Seq::<Callable<C>>::empty());
                assert(info.methods@ =~= Seq::<Callable<M>>::empty());
                assert(info.functions@ =~= Seq::<Callable<S>>::empty());
            }
            (None, info)
        },
    }
}

/// Adds a constructor to the type named `class_name`, creating the type (of identity
/// `objtype`) on first registration.
pub fn register_constructor<C, M, S>(registry: &mut Registry<C, M, S>, class_name: &str, objtype: TypeKey, constructor: Callable<C>)
    ensures
        registered(
            *old(registry),
            *final(registry),
            class_name@,
            objtype,
            |cs: Seq<Callable<C>>, ms: Seq<Callable<M>>, fs: Seq<Callable<S>>, after: TypeInfo<C, M, S>|
                after.constructors@ == cs.push(constructor) && after.methods@ == ms && after.functions@ == fs,
        ),
{
    let ghost before = registry.types@;
    let (k, mut info) = take_out(registry, class_name, objtype);
    info.constructors.push(constructor);
    put_back(registry, k, info, Ghost(before));
}

/// Adds a method, under its own name, to the type named `class_name`, creating the type (of
/// identity `objtype`) on first registration; it shadows an earlier method of that name.
pub fn register_method<C, M, S>(registry: &mut Registry<C, M, S>, class_name: &str, objtype: TypeKey, method: Callable<M>)
    ensures
        registered(
            *old(registry),
            *final(registry),
            class_name@,
            objtype,
            |cs: Seq<Callable<C>>, ms: Seq<Callable<M>>, fs: Seq<Callable<S>>, after: TypeInfo<C, M, S>|
                after.constructors@ == cs && after.methods@ == ms.push(method) && after.functions@ == fs,
        ),
{
    let ghost before = registry.types@;
    let (k, mut info) = take_out(registry, class_name, objtype);
    info.methods.push(method);
    put_back(registry, k, info, Ghost(before));
}

/// Adds a static function, under its own name, to the type named `class_name`, creating the
/// type (of identity `objtype`) on first registration; it shadows an earlier function of
/// that name.
pub fn register_function<C, M, S>(registry: &mut Registry<C, M, S>, class_name: &str, objtype: TypeKey, function: Callable<S>)
    ensures
        registered(
            *old(registry),
            *final(registry),
            class_name@,
            objtype,
            |cs: Seq<Callable<C>>, ms: Seq<Callable<M>>, fs: Seq<Callable<S>>, after: TypeInfo<C, M, S>|
                after.constructors@ == cs && after.methods@ == ms && after.functions@ == fs.push(function),
        ),
{
    let ghost before = registry.types@;
    let (k, mut info) = take_out(registry, class_name, objtype);
    info.functions.push(function);
    put_back(registry, k, info, Ghost(before));
}

} // verus!
