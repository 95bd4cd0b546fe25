use rml_engine::cli::{extension_of, mapping_format_from_ext, MappingFormat, OutputFormat, RmlError};
use rml_engine::evaluate::{evaluate, evaluate_value, function_outcome, Binding, FunctionCall};
use rml_engine::generate::Quad;
use rml_engine::join::{resolve_join, ParentEntry};
use rml_engine::model::expression::{extract_template_references, Expression, ExpressionMap};
use rml_engine::model::function::{FunctionMap, Input, InputValueMap, ParameterMap, Return, ReturnMap};
use rml_engine::model::maps::{
    JoinCondition, ObjectMap, PredicateMap, PredicateObjectMap, ReferencingObjectMap, SubjectMap,
};
use rml_engine::model::source::{trim_reference, FileLogicalSource, LogicalSource, LogicalSourceType, TriplesMap};
use rml_engine::ordering::{dependency_order, OrderError};
use rml_engine::processor::{ProcessError, RmlProcessor};
use rml_engine::record::{Field, Record};
use rml_engine::term::{materialize, Term};
use rml_engine::vocab::{TermType, RDF_TYPE};

fn s(x: &str) -> String {
    x.to_string()
}

fn record(fields: &[(&str, &[&str])]) -> Record {
    Record {
        fields: fields
            .iter()
            .map(|(n, vs)| Field { name: s(n), values: vs.iter().map(|v| s(v)).collect() })
            .collect(),
    }
}

fn reference(r: &str) -> Expression {
    Expression::Reference { reference: s(r) }
}

fn template(t: &str) -> Expression {
    Expression::Template { template: s(t) }
}

fn constant(c: &str) -> Expression {
    Expression::RDFNodeConstant { constant: s(c) }
}

fn source(nulls: &[&str]) -> LogicalSourceType {
    LogicalSourceType::File(FileLogicalSource {
        source: s("data.csv"),
        reference_formulation: None,
        iterator: None,
        nulls: nulls.iter().map(|n| s(n)).collect(),
    })
}

fn subject_map(e: Expression, term_type: &str) -> SubjectMap {
    SubjectMap::new(e, s(term_type), vec![], vec![], None)
}

fn literal_object(e: Expression) -> ObjectMap {
    ObjectMap::new(e, s(TermType::LITERAL), None, None, None)
}

fn pom(pred: &str, objects: Vec<ObjectMap>, joins: Vec<ReferencingObjectMap>) -> PredicateObjectMap {
    PredicateObjectMap::new(None, vec![PredicateMap::new(constant(pred))], objects, joins, vec![])
}

fn no_functions(_c: &FunctionCall) -> Option<Return> {
    None
}

fn iri(x: &str) -> Term {
    Term::NamedNode(s(x))
}

fn plain(x: &str) -> Term {
    Term::Literal { value: s(x), datatype: None, language: None }
}

fn quad(sub: Term, pred: &str, obj: Term) -> Quad {
    Quad { subject: sub, predicate: iri(pred), object: obj, graph: None }
}

#[test]
fn template_references_in_order() {
    assert_eq!(extract_template_references("{a}-{b}"), vec![s("a"), s("b")]);
    assert_eq!(extract_template_references("{a}-{b}"), extract_template_references("{a}-{b}"));
}

#[test]
fn template_escaped_braces_are_literal() {
    assert_eq!(extract_template_references("\\{literal\\}"), Vec::<String>::new());
}

#[test]
fn template_escapes_inside_reference_and_empty_capture() {
    assert_eq!(extract_template_references("x{a\\}b}{}y"), vec![s("a}b")]);
    assert_eq!(extract_template_references("{open"), vec![s("open")]);
}

#[test]
fn expression_references_by_kind() {
    assert_eq!(reference("name").references(), vec![s("name")]);
    assert_eq!(constant("c").references(), Vec::<String>::new());
    assert_eq!(ExpressionMap::new(template("http://ex/{id}")).get_references(), vec![s("id")]);
}

#[test]
fn reference_value_and_null_marker() {
    let rec = record(&[("name", &["Alice"]), ("age", &["NULL"])]);
    let nulls = vec![s("NULL")];
    assert_eq!(evaluate_value(&reference("name"), &rec, &nulls), vec![s("Alice")]);
    assert_eq!(evaluate_value(&reference("age"), &rec, &nulls), Vec::<String>::new());
    assert_eq!(evaluate_value(&reference("missing"), &rec, &nulls), Vec::<String>::new());
}

#[test]
fn template_substitutes_every_combination() {
    let rec = record(&[("id", &["1", "2"]), ("k", &["x"])]);
    let out = evaluate_value(&template("http://ex/{id}/{k}"), &rec, &vec![]);
    assert_eq!(out, vec![s("http://ex/1/x"), s("http://ex/2/x")]);
    let none = evaluate_value(&template("http://ex/{missing}"), &rec, &vec![]);
    assert!(none.is_empty());
}

#[test]
fn template_with_null_reference_yields_nothing() {
    let rec = record(&[("id", &["-"])]);
    assert!(evaluate_value(&template("http://ex/{id}"), &rec, &vec![s("-")]).is_empty());
}

#[test]
fn multi_valued_reference_fans_out() {
    let rec = record(&[("tags", &["x", "y"])]);
    let tm = TriplesMap::new(
        s("http://ex/map"),
        source(&[]),
        subject_map(constant("http://ex/s"), TermType::IRI),
        vec![pom("http://ex/tag", vec![literal_object(reference("tags"))], vec![])],
    );
    let out = RmlProcessor::new(None).process(&vec![tm], &vec![vec![rec]], &no_functions).unwrap();
    assert_eq!(
        out,
        vec![
            quad(iri("http://ex/s"), "http://ex/tag", plain("x")),
            quad(iri("http://ex/s"), "http://ex/tag", plain("y")),
        ]
    );
}

#[test]
fn blank_nodes_are_stable() {
    let scope = s("http://ex/map");
    let bn = s(TermType::BLANK_NODE);
    let a = materialize(&s("k1"), &bn, None, None, &scope, &None);
    let b = materialize(&s("k1"), &bn, None, None, &scope, &None);
    let c = materialize(&s("k2"), &bn, None, None, &scope, &None);
    assert!(a.is_some());
    assert_eq!(a, b);
    assert_ne!(a, c);
}

#[test]
fn blank_subjects_shared_across_predicate_object_maps() {
    let tm = TriplesMap::new(
        s("http://ex/map"),
        source(&[]),
        subject_map(reference("id"), TermType::BLANK_NODE),
        vec![
            pom("http://ex/a", vec![literal_object(constant("1"))], vec![]),
            pom("http://ex/b", vec![literal_object(constant("2"))], vec![]),
        ],
    );
    let recs = vec![record(&[("id", &["k"])]), record(&[("id", &["k"])]), record(&[("id", &["j"])])];
    let out = RmlProcessor::new(None).process(&vec![tm], &vec![recs], &no_functions).unwrap();
    assert_eq!(out.len(), 6);
    assert_eq!(out[0].subject, out[1].subject);
    assert_eq!(out[0].subject, out[2].subject);
    assert_ne!(out[0].subject, out[4].subject);
}

#[test]
fn iri_terms_absolute_relative_and_malformed() {
    let t = s(TermType::IRI);
    let scope = s("m");
    assert_eq!(materialize(&s("http://ex/a"), &t, None, None, &scope, &None), Some(iri("http://ex/a")));
    let base = Some(s("http://ex/base/"));
    assert_eq!(materialize(&s("rel"), &t, None, None, &scope, &base), Some(iri("http://ex/base/rel")));
    assert_eq!(materialize(&s("rel"), &t, None, None, &scope, &None), None);
    assert_eq!(materialize(&s("http://ex/a b"), &t, None, None, &scope, &None), None);
}

#[test]
fn literal_datatype_wins_over_language() {
    let t = s(TermType::LITERAL);
    let r = materialize(&s("5"), &t, Some(s("http://www.w3.org/2001/XMLSchema#int")), Some(s("en")), &s("m"), &None);
    assert_eq!(
        r,
        Some(Term::Literal {
            value: s("5"),
            datatype: Some(s("http://www.w3.org/2001/XMLSchema#int")),
            language: None
        })
    );
    let l = materialize(&s("hi"), &t, None, Some(s("en")), &s("m"), &None);
    assert_eq!(l, Some(Term::Literal { value: s("hi"), datatype: None, language: Some(s("en")) }));
    assert_eq!(materialize(&s("x"), &s("http://ex/unknown"), None, None, &s("m"), &None), None);
}

fn parents() -> Vec<Record> {
    vec![record(&[("id", &["1"]), ("g", &["a"])]), record(&[("id", &["2"]), ("g", &["b"])])]
}

fn join_on(conds: &[(&str, &str)]) -> ReferencingObjectMap {
    ReferencingObjectMap::new(
        None,
        s("http://ex/parent"),
        conds
            .iter()
            .map(|(c, p)| JoinCondition::new(ExpressionMap::new(reference(p)), ExpressionMap::new(reference(c))))
            .collect(),
        None,
    )
}

#[test]
fn join_returns_only_matching_parent_in_any_order() {
    let rom = join_on(&[("childId", "id")]);
    let child = record(&[("childId", &["1"])]);
    let first = ParentEntry { subject: iri("http://ex/p/1"), record: 0 };
    let second = ParentEntry { subject: iri("http://ex/p/2"), record: 1 };
    let forward = resolve_join(&rom, &child, &vec![], &parents(), &vec![first.clone(), second.clone()], &vec![]);
    let backward = resolve_join(&rom, &child, &vec![], &parents(), &vec![second, first], &vec![]);
    assert_eq!(forward, vec![iri("http://ex/p/1")]);
    assert_eq!(backward, vec![iri("http://ex/p/1")]);
}

#[test]
fn join_needs_every_condition() {
    let rom = join_on(&[("childId", "id"), ("cg", "g")]);
    let index = vec![
        ParentEntry { subject: iri("http://ex/p/1"), record: 0 },
        ParentEntry { subject: iri("http://ex/p/2"), record: 1 },
    ];
    let half = record(&[("childId", &["1"]), ("cg", &["b"])]);
    assert!(resolve_join(&rom, &half, &vec![], &parents(), &index, &vec![]).is_empty());
    let both = record(&[("childId", &["1"]), ("cg", &["a"])]);
    assert_eq!(resolve_join(&rom, &both, &vec![], &parents(), &index, &vec![]), vec![iri("http://ex/p/1")]);
}

#[test]
fn two_rows_end_to_end() {
    let tm = TriplesMap::new(
        s("http://ex/people"),
        source(&[]),
        subject_map(template("http://ex/{id}"), TermType::IRI),
        vec![pom("http://ex/name", vec![literal_object(reference("name"))], vec![])],
    );
    let rows = vec![record(&[("id", &["1"]), ("name", &["Alice"])]), record(&[("id", &["2"]), ("name", &["Bob"])])];
    let out = RmlProcessor::new(None).process(&vec![tm], &vec![rows], &no_functions).unwrap();
    assert_eq!(
        out,
        vec![
            quad(iri("http://ex/1"), "http://ex/name", plain("Alice")),
            quad(iri("http://ex/2"), "http://ex/name", plain("Bob")),
        ]
    );
}

fn parent_map() -> TriplesMap {
    TriplesMap::new(
        s("http://ex/parent"),
        source(&[]),
        subject_map(template("http://ex/p/{id}"), TermType::IRI),
        vec![],
    )
}

fn child_map() -> TriplesMap {
    TriplesMap::new(
        s("http://ex/child"),
        source(&[]),
        subject_map(template("http://ex/c/{cid}"), TermType::IRI),
        vec![pom("http://ex/parent", vec![], vec![join_on(&[("pid", "id")])])],
    )
}

#[test]
fn join_end_to_end_child_listed_first() {
    let maps = vec![child_map(), parent_map()];
    let sources = vec![vec![record(&[("cid", &["9"]), ("pid", &["1"])])], parents()];
    let out = RmlProcessor::new(None).process(&maps, &sources, &no_functions).unwrap();
    assert_eq!(out, vec![quad(iri("http://ex/c/9"), "http://ex/parent", iri("http://ex/p/1"))]);
}

#[test]
fn dependency_order_puts_parents_first() {
    assert_eq!(dependency_order(&vec![child_map(), parent_map()]), Ok(vec![1, 0]));
}

#[test]
fn cyclic_joins_are_refused() {
    let mut a = parent_map();
    a.predicate_object_maps = vec![pom("http://ex/r", vec![], vec![join_on_uri("http://ex/child")])];
    let maps = vec![child_map(), a];
    assert_eq!(dependency_order(&maps), Err(OrderError::Cycle));
    let r = RmlProcessor::new(None).process(&maps, &vec![vec![], vec![]], &no_functions);
    assert_eq!(r, Err(ProcessError::CyclicJoins));
}

fn join_on_uri(uri: &str) -> ReferencingObjectMap {
    ReferencingObjectMap::new(None, s(uri), vec![], None)
}

#[test]
fn self_join_sees_current_and_earlier_records() {
    let tm = TriplesMap::new(
        s("http://ex/self"),
        source(&[]),
        subject_map(template("http://ex/n/{id}"), TermType::IRI),
        vec![pom("http://ex/same", vec![], vec![ReferencingObjectMap::new(
            None,
            s("http://ex/self"),
            vec![JoinCondition::new(ExpressionMap::new(reference("g")), ExpressionMap::new(reference("g")))],
            None,
        )])],
    );
    let rows = vec![record(&[("id", &["1"]), ("g", &["a"])]), record(&[("id", &["2"]), ("g", &["a"])])];
    let out = RmlProcessor::new(None).process(&vec![tm], &vec![rows], &no_functions).unwrap();
    assert_eq!(
        out,
        vec![
            quad(iri("http://ex/n/1"), "http://ex/same", iri("http://ex/n/1")),
            quad(iri("http://ex/n/2"), "http://ex/same", iri("http://ex/n/1")),
            quad(iri("http://ex/n/2"), "http://ex/same", iri("http://ex/n/2")),
        ]
    );
}

#[test]
fn configuration_errors() {
    let p = RmlProcessor::new(None);
    assert_eq!(p.process(&vec![parent_map()], &vec![], &no_functions), Err(ProcessError::SourceCountMismatch));
    let bad = RmlProcessor::new(Some(s("not an iri")));
    assert_eq!(bad.process(&vec![parent_map()], &vec![vec![]], &no_functions), Err(ProcessError::InvalidBaseIri));
    assert_eq!(
        p.process(&vec![child_map()], &vec![vec![]], &no_functions),
        Err(ProcessError::UnknownParentTriplesMap)
    );
    assert_eq!(dependency_order(&vec![child_map()]), Err(OrderError::UnknownParent));
}

#[test]
fn classes_and_unmaterializable_subjects() {
    let mut sm = subject_map(reference("u"), TermType::IRI);
    sm.classes = vec![s("http://ex/Person")];
    let tm = TriplesMap::new(s("http://ex/m"), source(&[]), sm, vec![]);
    let rows = vec![record(&[("u", &["http://ex/a"])]), record(&[("u", &["not absolute"])])];
    let out = RmlProcessor::new(None).process(&vec![tm], &vec![rows], &no_functions).unwrap();
    assert_eq!(out, vec![quad(iri("http://ex/a"), RDF_TYPE, iri("http://ex/Person"))]);
}

#[test]
fn relative_subjects_resolve_against_base() {
    let tm = TriplesMap::new(
        s("http://ex/m"),
        source(&[]),
        subject_map(template("item/{id}"), TermType::IRI),
        vec![pom("http://ex/v", vec![literal_object(reference("id"))], vec![])],
    );
    let rows = vec![record(&[("id", &["7"])])];
    let out = RmlProcessor::new(Some(s("http://ex/base/"))).process(&vec![tm], &vec![rows], &no_functions).unwrap();
    assert_eq!(out, vec![quad(iri("http://ex/base/item/7"), "http://ex/v", plain("7"))]);
}

fn function_expression(return_field: Option<&str>) -> Expression {
    Expression::FunctionExecution {
        function_map: Box::new(FunctionMap::new(constant("http://ex/fn/upper"))),
        return_map: return_field.map(|f| Box::new(ReturnMap::new(constant(f)))),
        inputs: vec![Input::new(
            ParameterMap::new(constant("http://ex/p/value")),
            InputValueMap { expression: reference("name"), term_type: s(TermType::LITERAL), datatype_map: None, language_map: None },
        )],
    }
}

fn upper(c: &FunctionCall) -> Option<Return> {
    if c.function != "http://ex/fn/upper" {
        return None;
    }
    let mut r = Return::new(Some(s("default")));
    if let Some(b) = c.bindings.iter().find(|b| b.parameter == "http://ex/p/value") {
        r.put(s(""), b.value.to_uppercase());
    }
    Some(r)
}

#[test]
fn function_execution_result_and_fallbacks() {
    let rec = record(&[("name", &["ada"])]);
    assert_eq!(evaluate(&function_expression(None), &rec, &vec![], &upper), vec![s("ADA")]);
    assert_eq!(evaluate(&function_expression(Some("other")), &rec, &vec![], &upper), vec![s("default")]);
    assert!(evaluate(&function_expression(None), &rec, &vec![], &no_functions).is_empty());
    let empty = record(&[]);
    assert!(evaluate(&function_expression(None), &empty, &vec![], &upper).is_empty());
}

#[test]
fn function_outcome_rules() {
    let mut r = Return::new(None);
    assert_eq!(r.put(s("out"), s("v1")), None);
    assert_eq!(r.put(s("out"), s("v2")), Some(s("v1")));
    assert_eq!(r.get("out"), Some(&s("v2")));
    assert_eq!(r.get_default_value(), None);
    assert_eq!(function_outcome(&Some(r), &Some(s("out"))), Some(s("v2")));
    assert_eq!(function_outcome(&Some(Return::new(Some(s("d")))), &Some(s("x"))), Some(s("d")));
    assert_eq!(function_outcome(&None, &Some(s("x"))), None);
    let _unused = Binding { parameter: s("p"), value: s("v") };
}

#[test]
fn logical_source_nulls() {
    assert_eq!(source(&["", "NA"]).get_nulls(), vec![s(""), s("NA")]);
}

#[test]
fn output_format_names_and_default() {
    assert_eq!(OutputFormat::default(), OutputFormat::Nq);
    assert_eq!(OutputFormat::Turtle.name(), "turtle");
    assert_eq!(OutputFormat::Jsonld.name(), "jsonld");
}

#[test]
fn mapping_format_from_extension() {
    assert_eq!(mapping_format_from_ext("dir/map.ttl"), Ok(MappingFormat::Turtle));
    assert_eq!(mapping_format_from_ext("map.nq"), Ok(MappingFormat::NQuads));
    assert_eq!(mapping_format_from_ext("map.nquads"), Ok(MappingFormat::NQuads));
    assert_eq!(mapping_format_from_ext("a.b/map"), Err(RmlError::NoFileExtension));
    assert_eq!(mapping_format_from_ext(".hidden"), Err(RmlError::NoFileExtension));
    assert_eq!(
        mapping_format_from_ext("map.json"),
        Err(RmlError::UnknownMappingFileType(s("map.json"), s("json")))
    );
    assert_eq!(extension_of("x/y.tar.gz"), Some("gz"));
    assert_eq!(mapping_format_from_ext("a.ttl/"), Ok(MappingFormat::Turtle));
    assert_eq!(mapping_format_from_ext("dir/a.nq/./"), Ok(MappingFormat::NQuads));
    assert_eq!(mapping_format_from_ext("dir/.."), Err(RmlError::NoFileExtension));
    assert_eq!(mapping_format_from_ext(".."), Err(RmlError::NoFileExtension));
    assert_eq!(mapping_format_from_ext("/"), Err(RmlError::NoFileExtension));
    assert_eq!(extension_of("name."), Some(""));
}

#[test]
fn joins_lists_predicate_object_maps_with_joins() {
    assert_eq!(child_map().joins(), vec![0]);
    assert!(parent_map().joins().is_empty());
    assert_eq!(join_on(&[("a", "b"), ("c", "d")]).get_references(), vec![s("a"), s("c")]);
}

fn concat_iri(c: &FunctionCall) -> Option<Return> {
    let mut r = Return::new(None);
    if let Some(b) = c.bindings.first() {
        r.put(s(""), format!("http://ex/f/{}", b.value));
    }
    Some(r)
}

#[test]
fn function_valued_subject() {
    let tm = TriplesMap::new(
        s("http://ex/m"),
        source(&[]),
        subject_map(function_expression(None), TermType::IRI),
        vec![pom("http://ex/v", vec![literal_object(constant("1"))], vec![])],
    );
    let rows = vec![record(&[("name", &["ada"])])];
    let out = RmlProcessor::new(None).process(&vec![tm], &vec![rows], &concat_iri).unwrap();
    assert_eq!(out, vec![quad(iri("http://ex/f/ada"), "http://ex/v", plain("1"))]);
}

#[test]
fn reference_fields_are_trimmed_and_unique() {
    let tm = TriplesMap::new(
        s("http://ex/m"),
        source(&[]),
        subject_map(template("http://ex/{$.id}"), TermType::IRI),
        vec![
            pom("http://ex/a", vec![literal_object(reference("$.name")), literal_object(reference("id"))], vec![]),
            pom("http://ex/b", vec![], vec![join_on(&[("..pid", "id")])]),
        ],
    );
    let mut fields = tm.get_all_reference_fields();
    fields.sort();
    assert_eq!(fields, vec![s("id"), s("name"), s("pid")]);
    assert_eq!(trim_reference(&s("$.a.b")), s("a.b"));
    assert_eq!(trim_reference(&s("$$")), s(""));
}

#[test]
fn missing_predicate_maps_are_refused() {
    let tm = TriplesMap::new(
        s("http://ex/m"),
        source(&[]),
        subject_map(constant("http://ex/s"), TermType::IRI),
        vec![PredicateObjectMap::new(None, vec![], vec![literal_object(constant("x"))], vec![], vec![])],
    );
    let r = RmlProcessor::new(None).process(&vec![tm], &vec![vec![record(&[])]], &no_functions);
    assert_eq!(r, Err(ProcessError::MissingPredicateMaps));
}

#[test]
fn predicate_maps_declare_the_r2rml_iri_type() {
    let pm = PredicateMap::new(constant("http://ex/p"));
    assert_eq!(pm.term_type, "http://www.w3.org/ns/r2rml#IRI");
    let t = materialize(&s("http://ex/p"), &pm.term_type, None, None, &s("m"), &None);
    assert_eq!(t, Some(iri("http://ex/p")));
}

#[test]
fn function_object_map_with_other_term_maps() {
    let tm = TriplesMap::new(
        s("http://ex/m"),
        source(&[]),
        subject_map(template("http://ex/{name}"), TermType::IRI),
        vec![pom("http://ex/v", vec![literal_object(function_expression(None)), literal_object(reference("name"))], vec![])],
    );
    let rows = vec![record(&[("name", &["ada"])])];
    let out = RmlProcessor::new(None).process(&vec![tm], &vec![rows], &upper).unwrap();
    assert_eq!(
        out,
        vec![
            quad(iri("http://ex/ada"), "http://ex/v", plain("ADA")),
            quad(iri("http://ex/ada"), "http://ex/v", plain("ada")),
        ]
    );
}
