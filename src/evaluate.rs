use vstd::prelude::*;

use crate::model::expression::{
    parse_template, segments_view, strings_view, template_parts, Expression, Part, Segment,
};
use crate::model::function::{FunctionMap, Input, Return, ReturnMap};
use crate::record::Record;

verus! {

/// Every value of `acc` followed by every value of `vals`: for each value
/// of `acc` in turn, one result per value of `vals`.
pub open spec fn extend_each(acc: Seq<Seq<char>>, vals: Seq<Seq<char>>) -> Seq<Seq<char>>
    decreases acc.len(),
{
    if acc.len() == 0 {
        Seq::empty()
    } else {
        extend_each(acc.drop_last(), vals) + vals.map_values(|v: Seq<char>| acc.last() + v)
    }
}

/// The values a template segment contributes.
pub open spec fn part_values(p: Part, rec: Record, nulls: Seq<Seq<char>>) -> Seq<Seq<char>> {
    match p {
        Part::Text(s) => seq![s],
        Part::Ref(r) => rec.values(r, nulls),
    }
}

/// The strings a template yields: one per combination of the values of its
/// references, none if some reference has no value.
pub open spec fn fill_parts(parts: Seq<Part>, rec: Record, nulls: Seq<Seq<char>>) -> Seq<
    Seq<char>,
>
    decreases parts.len(),
{
    if parts.len() == 0 {
        seq![Seq::empty()]
    } else {
        extend_each(fill_parts(parts.drop_last(), rec, nulls), part_values(parts.last(), rec, nulls))
    }
}

/// The values of an expression on a record. A function execution has no
/// value here: its value comes from the function registry.
pub open spec fn eval_spec(e: Expression, rec: Record, nulls: Seq<Seq<char>>) -> Seq<Seq<char>> {
    match e {
        Expression::RDFNodeConstant { constant } => seq![constant@],
        Expression::Reference { reference } => rec.values(reference@, nulls),
        Expression::Template { template } => fill_parts(template_parts(template@), rec, nulls),
        Expression::FunctionExecution { .. } => Seq::empty(),
    }
}

pub open spec fn first_of(s: Seq<Seq<char>>) -> Option<Seq<char>> {
    if s.len() > 0 {
        Some(s[0])
    } else {
        None
    }
}

fn concat(a: &String, b: &String) -> (r: String)
    ensures
        r@ == a@ + b@,
{
    let mut s = a.clone();
    s.append(b.as_str());
    s
}

fn extend_each_exec(acc: &Vec<String>, vals: &Vec<String>) -> (r: Vec<String>)
    ensures
        strings_view(r@) == extend_each(strings_view(acc@), strings_view(vals@)),
{
    let ghost av = strings_view(acc@);
    let ghost vv = strings_view(vals@);
    let mut out: Vec<String> = Vec::new();
    let mut i: usize = 0;
    assert(av.subrange(0, 0) =~= Seq::<Seq<char>>::empty());
    assert(strings_view(out@) =~= Seq::empty());
    while i < acc.len()
        invariant
            0 <= i <= acc@.len(),
            av == strings_view(acc@),
            vv == strings_view(vals@),
            strings_view(out@) == extend_each(av.subrange(0, i as int), vv),
        decreases acc.len() - i,
    {
        let ghost start = strings_view(out@);
        let mut j: usize = 0;
        while j < vals.len()
            invariant
                0 <= i < acc@.len(),
                0 <= j <= vals@.len(),
                av == strings_view(acc@),
                vv == strings_view(vals@),
                strings_view(out@) == start + vv.subrange(0, j as int).map_values(
                    |v: Seq<char>| av[i as int] + v,
                ),
            decreases vals.len() - j,
        {
            let s = concat(&acc[i], &vals[j]);
            let ghost prev = strings_view(out@);
            out.push(s);
            assert(strings_view(out@) =~= prev.push(av[i as int] + vv[j as int]));
            assert(vv.subrange(0, j + 1).map_values(|v: Seq<char>| av[i as int] + v)
                =~= vv.subrange(0, j as int).map_values(|v: Seq<char>| av[i as int] + v).push(
                av[i as int] + vv[j as int],
            ));
            assert(strings_view(out@) =~= start + vv.subrange(0, j + 1).map_values(
                |v: Seq<char>| av[i as int] + v,
            ));
            j = j + 1;
        }
        assert(vv.subrange(0, vals.len() as int) =~= vv);
        assert(av.subrange(0, i + 1).drop_last() =~= av.subrange(0, i as int));
        assert(av.subrange(0, i + 1).last() == av[i as int]);
        i = i + 1;
    }
    assert(av.subrange(0, acc.len() as int) =~= av);
    out
}

fn single(s: String) -> (r: Vec<String>)
    ensures
        strings_view(r@) == seq![s@],
{
    let r = vec![s];
    assert(strings_view(r@) =~= seq![s@]);
    r
}

/// The strings a parsed template yields on a record.
pub fn fill_template(parts: &Vec<Segment>, rec: &Record, nulls: &Vec<String>) -> (r: Vec<
    String,
>)
    ensures
        strings_view(r@) == fill_parts(segments_view(parts@), *rec, strings_view(nulls@)),
{
    let ghost pv = segments_view(parts@);
    let ghost nv = strings_view(nulls@);
    let mut acc = single(String::new());
    let mut i: usize = 0;
    assert(pv.subrange(0, 0) =~= Seq::<Part>::empty());
    while i < parts.len()
        invariant
            0 <= i <= parts@.len(),
            pv == segments_view(parts@),
            nv == strings_view(nulls@),
            strings_view(acc@) == fill_parts(pv.subrange(0, i as int), *rec, nv),
        decreases parts.len() - i,
    {
        assert(pv.subrange(0, i + 1).drop_last() =~= pv.subrange(0, i as int));
        assert(pv.subrange(0, i + 1).last() == pv[i as int]);
        let vals = match &parts[i] {
            Segment::Text(s) => single(s.clone()),
            Segment::Reference(name) => rec.get_values_for(name, nulls),
        };
        acc = extend_each_exec(&acc, &vals);
        i = i + 1;
    }
    assert(pv.subrange(0, parts.len() as int) =~= pv);
    acc
}

/// The values of an expression on a record, with null markers `nulls`:
/// a constant's single value, a reference's non-null values, or one string
/// per combination of a template's reference values. A function execution
/// yields nothing here (see `evaluate`).
pub fn evaluate_value(e: &Expression, rec: &Record, nulls: &Vec<String>) -> (r: Vec<String>)
    ensures
        strings_view(r@) == eval_spec(*e, *rec, strings_view(nulls@)),
{
    match e {
        Expression::RDFNodeConstant { constant } => single(constant.clone()),
        Expression::Reference { reference } => rec.get_values_for(reference, nulls),
        Expression::Template { template } => {
            let parts = parse_template(template.as_str());
            fill_template(&parts, rec, nulls)
        },
        Expression::FunctionExecution { .. } => {
            let r: Vec<String> = Vec::new();
            assert(strings_view(r@) =~= Seq::empty());
            r
        },
    }
}

pub(crate) fn first_value(e: &Expression, rec: &Record, nulls: &Vec<String>) -> (r: Option<String>)
    ensures
        opt_view(r) == first_of(eval_spec(*e, *rec, strings_view(nulls@))),
{
    let mut vals = evaluate_value(e, rec, nulls);
    if vals.len() > 0 {
        Some(vals.swap_remove(0))
    } else {
        None
    }
}

pub open spec fn opt_view(o: Option<String>) -> Option<Seq<char>> {
    match o {
        Some(s) => Some(s@),
        None => None,
    }
}

pub open spec fn opt_seq(o: Option<Seq<char>>) -> Seq<Seq<char>> {
    match o {
        Some(s) => seq![s],
        None => Seq::empty(),
    }
}

/// A parameter bound to its value.
#[derive(Debug, PartialEq)]
pub struct Binding {
    pub parameter: String,
    pub value: String,
}

/// A request to run the function named `function` on `bindings`.
#[derive(Debug, PartialEq)]
pub struct FunctionCall {
    pub function: String,
    pub bindings: Vec<Binding>,
}

impl View for FunctionCall {
    type V = (Seq<char>, Seq<(Seq<char>, Seq<char>)>);

    open spec fn view(&self) -> Self::V {
        (self.function@, self.bindings@.map_values(|b: Binding| (b.parameter@, b.value@)))
    }
}

/// The bindings of `inputs` on a record: the first value of each parameter
/// map with the first value of its input value map. None when some input
/// has no parameter or no value: the function is then not called.
pub open spec fn bindings_spec(inputs: Seq<Input>, rec: Record, nulls: Seq<Seq<char>>) -> Option<
    Seq<(Seq<char>, Seq<char>)>,
>
    decreases inputs.len(),
{
    if inputs.len() == 0 {
        Some(Seq::empty())
    } else {
        let p = first_of(eval_spec(inputs.last().parameter_map.expression, rec, nulls));
        let v = first_of(eval_spec(inputs.last().input_value_map.expression, rec, nulls));
        match bindings_spec(inputs.drop_last(), rec, nulls) {
            Some(rest) => if p is Some && v is Some {
                Some(rest.push((p->0, v->0)))
            } else {
                None
            },
            None => None,
        }
    }
}

/// The call a function execution makes on a record: none if its function
/// map yields no IRI or some input has no value.
pub open spec fn call_spec(
    function_map: FunctionMap,
    inputs: Seq<Input>,
    rec: Record,
    nulls: Seq<Seq<char>>,
) -> Option<(Seq<char>, Seq<(Seq<char>, Seq<char>)>)> {
    match first_of(eval_spec(function_map.expression, rec, nulls)) {
        Some(f) => match bindings_spec(inputs, rec, nulls) {
            Some(b) => Some((f, b)),
            None => None,
        },
        None => None,
    }
}

proof fn lemma_bindings_stay_missing(inputs: Seq<Input>, rec: Record, nulls: Seq<Seq<char>>, i: int, j: int)
    requires
        0 <= i <= j <= inputs.len(),
        bindings_spec(inputs.subrange(0, i), rec, nulls) is None,
    ensures
        bindings_spec(inputs.subrange(0, j), rec, nulls) is None,
    decreases j - i,
{
    if i < j {
        assert(inputs.subrange(0, i + 1).drop_last() =~= inputs.subrange(0, i));
        lemma_bindings_stay_missing(inputs, rec, nulls, i + 1, j);
    }
}

/// The return field a function execution selects: the first value of its
/// return map, or the unnamed (empty) field when it has none.
pub open spec fn return_key_spec(
    return_map: Option<Box<ReturnMap>>,
    rec: Record,
    nulls: Seq<Seq<char>>,
) -> Option<Seq<char>> {
    match return_map {
        Some(m) => first_of(eval_spec(m.expression, rec, nulls)),
        None => Some(Seq::empty()),
    }
}

/// The value a function execution yields from what the function returned:
/// the selected field, else the function's default value, else nothing. A
/// missing function yields nothing.
pub open spec fn outcome_spec(ret: Option<Return>, key: Option<Seq<char>>) -> Option<Seq<char>> {
    match ret {
        None => None,
        Some(r) => match key {
            Some(k) => if r.returns@.contains_key(k) {
                Some(r.returns@[k]@)
            } else {
                opt_view(r.default_value)
            },
            None => opt_view(r.default_value),
        },
    }
}

/// What a function execution yields, given what the function returned
/// (`None`: no function of that name).
pub fn function_outcome(ret: &Option<Return>, key: &Option<String>) -> (r: Option<String>)
    ensures
        opt_view(r) == outcome_spec(*ret, opt_view(*key)),
{
    match ret {
        None => None,
        Some(result) => {
            let found = match key {
                Some(k) => result.get(k.as_str()),
                None => None,
            };
            match found {
                Some(v) => Some(v.clone()),
                None => match result.get_default_value() {
                    Some(d) => Some(d.clone()),
                    None => None,
                },
            }
        },
    }
}

/// The call a function execution makes on a record.
pub fn function_call(function_map: &FunctionMap, inputs: &Vec<Input>, rec: &Record, nulls: &Vec<String>) -> (r: Option<FunctionCall>)
    ensures
        match r {
            Some(c) => call_spec(*function_map, inputs@, *rec, strings_view(nulls@)) == Some(c@),
            None => call_spec(*function_map, inputs@, *rec, strings_view(nulls@)) is None,
        },
{
    let ghost nv = strings_view(nulls@);
    let function = match first_value(&function_map.expression, rec, nulls) {
        Some(f) => f,
        None => {
            return None;
        },
    };
    let mut bindings: Vec<Binding> = Vec::new();
    let mut i: usize = 0;
    assert(inputs@.subrange(0, 0) =~= Seq::<Input>::empty());
    assert(bindings@.map_values(|b: Binding| (b.parameter@, b.value@)) =~= Seq::empty());
    while i < inputs.len()
        invariant
            0 <= i <= inputs@.len(),
            nv == strings_view(nulls@),
            bindings_spec(inputs@.subrange(0, i as int), *rec, nv) == Some(
                bindings@.map_values(|b: Binding| (b.parameter@, b.value@)),
            ),
        decreases inputs.len() - i,
    {
        assert(inputs@.subrange(0, i + 1).drop_last() =~= inputs@.subrange(0, i as int));
        assert(inputs@.subrange(0, i + 1).last() == inputs@[i as int]);
        let ghost before = bindings@;
        let p = first_value(&inputs[i].parameter_map.expression, rec, nulls);
        let v = first_value(&inputs[i].input_value_map.expression, rec, nulls);
        match (p, v) {
            (Some(parameter), Some(value)) => {
                bindings.push(Binding { parameter, value });
                assert(bindings@.map_values(|b: Binding| (b.parameter@, b.value@)) =~= before.map_values(
                    |b: Binding| (b.parameter@, b.value@),
                ).push((parameter@, value@)));
            },
            _ => {
                proof {
                    lemma_bindings_stay_missing(inputs@, *rec, nv, i + 1, inputs@.len() as int);
                    assert(inputs@.subrange(0, inputs.len() as int) =~= inputs@);
                }
                return None;
            },
        }
        i = i + 1;
    }
    assert(inputs@.subrange(0, inputs.len() as int) =~= inputs@);
    Some(FunctionCall { function, bindings })
}

/// The field a function execution selects from the function's result.
pub fn return_key(return_map: &Option<Box<ReturnMap>>, rec: &Record, nulls: &Vec<String>) -> (r: Option<String>)
    ensures
        opt_view(r) == return_key_spec(*return_map, *rec, strings_view(nulls@)),
{
    match return_map {
        Some(m) => first_value(&m.expression, rec, nulls),
        None => Some(String::new()),
    }
}

/// Whether `vals` is what an expression may yield on a record when `call`
/// runs functions: exactly its specified values, or for a function
/// execution, what `function_outcome` makes of some answer of `call` to the
/// specified call (nothing when no call is made).
pub open spec fn values_ok<F: Fn(&FunctionCall) -> Option<Return>>(
    e: Expression,
    rec: Record,
    nulls: Seq<Seq<char>>,
    call: F,
    vals: Seq<Seq<char>>,
) -> bool {
    match e {
        Expression::FunctionExecution { function_map, return_map, inputs } => match call_spec(
            *function_map,
            inputs@,
            rec,
            nulls,
        ) {
            None => vals.len() == 0,
            Some(cv) => exists|c: FunctionCall, ret: Option<Return>|
                c@ == cv && call.ensures((&c,), ret) && vals == opt_seq(
                    outcome_spec(ret, return_key_spec(return_map, rec, nulls)),
                ),
        },
        _ => vals == eval_spec(e, rec, nulls),
    }
}

/// The values of an expression on a record. A function execution asks
/// `call` to run the function and yields what `function_outcome` makes of
/// the answer: at most one value.
pub fn evaluate<F: Fn(&FunctionCall) -> Option<Return>>(
    e: &Expression,
    rec: &Record,
    nulls: &Vec<String>,
    call: &F,
) -> (r: Vec<String>)
    requires
        forall|c: &FunctionCall| call.requires((c,)),
    ensures
        values_ok(*e, *rec, strings_view(nulls@), *call, strings_view(r@)),
        !(e is FunctionExecution) ==> strings_view(r@) == eval_spec(*e, *rec, strings_view(nulls@)),
        match *e {
            Expression::FunctionExecution { function_map, return_map, inputs } => match call_spec(
                *function_map,
                inputs@,
                *rec,
                strings_view(nulls@),
            ) {
                None => r@.len() == 0,
                Some(cv) => exists|c: FunctionCall, ret: Option<Return>|
                    c@ == cv && call.ensures((&c,), ret) && strings_view(r@) == opt_seq(
                        outcome_spec(ret, return_key_spec(return_map, *rec, strings_view(nulls@))),
                    ),
            },
            _ => true,
        },
{
    match e {
        Expression::FunctionExecution { function_map, return_map, inputs } => {
            match function_call(function_map, inputs, rec, nulls) {
                None => Vec::new(),
                Some(c) => {
                    let ret = call(&c);
                    let key = return_key(return_map, rec, nulls);
                    let mut r: Vec<String> = Vec::new();
                    match function_outcome(&ret, &key) {
                        Some(v) => r.push(v),
                        None => {},
                    }
                    assert(strings_view(r@) =~= opt_seq(
                        outcome_spec(ret, return_key_spec(*return_map, *rec, strings_view(nulls@))),
                    ));
                    r
                },
            }
        },
        _ => evaluate_value(e, rec, nulls),
    }
}

/// A reference evaluates to exactly the value the record holds for it,
/// unless that value is a null marker, in which case it yields no value.
pub proof fn lemma_reference_evaluation(
    e: Expression,
    rec: Record,
    nulls: Seq<Seq<char>>,
    v: Seq<char>,
)
    requires
        e matches Expression::Reference { reference } && rec.raw_values(reference@) == seq![v],
    ensures
        !nulls.contains(v) ==> eval_spec(e, rec, nulls) == seq![v],
        nulls.contains(v) ==> eval_spec(e, rec, nulls).len() == 0,
{
    let vals = seq![v];
    assert(vals.drop_last() =~= Seq::<Seq<char>>::empty());
    assert(crate::record::drop_nulls(vals.drop_last(), nulls) =~= Seq::<Seq<char>>::empty());
    if !nulls.contains(v) {
        assert(Seq::<Seq<char>>::empty().push(v) =~= seq![v]);
    }
}

} // verus!
