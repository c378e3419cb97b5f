use contract_watch::contracts::{
    body_assigns_field, body_calls_function, check_annotation, check_clause, check_identifier,
    expr_assigns_field, expr_calls_function, explain, find_declaration, parse_clause,
    process_files, render_findings, verify_contracts, Clause, Finding, Outcome,
};
use contract_watch::extractor::{extract_annotations, ItemMacros, KindMacros};
use contract_watch::tree::{Annotation, Expr, Item, Member, ScopeKind, SourceFile};
use contract_watch::walker::Frame;

fn s(text: &str) -> String {
    text.to_string()
}

fn path(name: &str) -> Expr {
    Expr::Path(name.split("::").map(|part| part.to_string()).collect())
}

fn field(base: Expr, member: &str) -> Expr {
    Expr::Field { base: Box::new(base), member: s(member) }
}

fn assign(target: Expr, value: Expr) -> Expr {
    Expr::Assign { target: Box::new(target), value: Box::new(value) }
}

fn call(callee: Expr, args: Vec<Expr>) -> Expr {
    Expr::Call { callee: Box::new(callee), args }
}

fn method(receiver: Expr, name: &str, args: Vec<Expr>) -> Expr {
    Expr::MethodCall { receiver: Box::new(receiver), method: s(name), args }
}

fn other(parts: Vec<Expr>) -> Expr {
    Expr::Other(parts)
}

fn func(name: &str, annotations: &[&str], body: Option<Vec<Expr>>) -> Member {
    let members = annotations
        .iter()
        .map(|tokens| {
            let kind = tokens.trim_start_matches("#[").split('(').next().unwrap_or("");
            let kind = kind.trim_end_matches(']');
            Member::Annotation(Annotation { path: vec![s(kind)], tokens: s(tokens) })
        })
        .collect();
    Member::Item(Item {
        scope: Some(ScopeKind::Function),
        name: s(name),
        params: String::new(),
        members,
        body,
    })
}

fn block(scope: Option<ScopeKind>, name: &str, members: Vec<Member>) -> Member {
    Member::Item(Item { scope, name: s(name), params: String::new(), members, body: None })
}

fn fn_path(name: &str) -> Vec<Frame> {
    vec![Frame { kind: ScopeKind::Function, name: s(name) }]
}

fn method_path(target: &str, name: &str) -> Vec<Frame> {
    vec![
        Frame { kind: ScopeKind::Impl, name: s(target) },
        Frame { kind: ScopeKind::Function, name: s(name) },
    ]
}

/// `self.counter = self.counter + 1;`
fn increment() -> Expr {
    other(vec![assign(
        field(path("self"), "counter"),
        other(vec![field(path("self"), "counter"), other(vec![])]),
    )])
}

fn verdict(function: Vec<Frame>, clause: Clause, outcome: Outcome, reason: &str) -> Finding {
    Finding::Verdict { function, clause, outcome, reason: s(reason) }
}

#[test]
fn mutates_is_satisfied_by_an_assignment_to_the_field() {
    let skeleton = SourceFile { members: vec![func("bump", &["#[mutates(counter)]"], Some(vec![]))] };
    let source = SourceFile { members: vec![func("bump", &[], Some(vec![increment()]))] };
    assert_eq!(
        process_files(&source, &skeleton),
        vec![verdict(
            fn_path("bump"),
            Clause::Mutates(s("counter")),
            Outcome::Satisfied,
            "assigns to field counter"
        )]
    );
}

#[test]
fn mutates_is_unsatisfied_without_an_assignment_to_the_field() {
    let skeleton = SourceFile { members: vec![func("bump", &["#[mutates(counter)]"], Some(vec![]))] };
    let reads = other(vec![field(path("self"), "counter")]);
    let assigns_other = assign(field(path("self"), "total"), field(path("self"), "counter"));
    let assigns_local = assign(path("counter"), other(vec![]));
    let source = SourceFile {
        members: vec![func("bump", &[], Some(vec![reads, assigns_other, assigns_local]))],
    };
    assert_eq!(
        process_files(&source, &skeleton),
        vec![verdict(
            fn_path("bump"),
            Clause::Mutates(s("counter")),
            Outcome::Unsatisfied,
            "no assignment to field counter"
        )]
    );
    let empty = SourceFile { members: vec![func("bump", &[], Some(vec![]))] };
    assert_eq!(
        process_files(&empty, &skeleton),
        vec![verdict(
            fn_path("bump"),
            Clause::Mutates(s("counter")),
            Outcome::Unsatisfied,
            "no assignment to field counter"
        )]
    );
}

#[test]
fn mutates_is_inconclusive_without_a_body() {
    let skeleton = SourceFile {
        members: vec![func("bump", &["#[mutates(counter)]", "#[calls(helper)]"], Some(vec![]))],
    };
    let source = SourceFile { members: vec![func("bump", &[], None)] };
    assert_eq!(
        process_files(&source, &skeleton),
        vec![
            verdict(
                fn_path("bump"),
                Clause::Mutates(s("counter")),
                Outcome::Inconclusive,
                "no body to inspect"
            ),
            verdict(
                fn_path("bump"),
                Clause::Calls(s("helper")),
                Outcome::Unsatisfied,
                "no call to helper"
            ),
        ]
    );
}

#[test]
fn calls_is_satisfied_by_a_call_of_the_function() {
    let skeleton = SourceFile { members: vec![func("run", &["#[calls(helper)]"], Some(vec![]))] };
    let source =
        SourceFile { members: vec![func("run", &[], Some(vec![call(path("helper"), vec![path("x")])]))] };
    assert_eq!(
        process_files(&source, &skeleton),
        vec![verdict(fn_path("run"), Clause::Calls(s("helper")), Outcome::Satisfied, "calls helper")]
    );
}

#[test]
fn calls_is_unsatisfied_without_such_a_call() {
    let skeleton = SourceFile { members: vec![func("run", &["#[calls(helper)]"], Some(vec![]))] };
    let body = vec![call(path("other"), vec![path("helper")]), path("helper"), field(path("x"), "helper")];
    let source = SourceFile { members: vec![func("run", &[], Some(body))] };
    assert_eq!(
        process_files(&source, &skeleton),
        vec![verdict(
            fn_path("run"),
            Clause::Calls(s("helper")),
            Outcome::Unsatisfied,
            "no call to helper"
        )]
    );
}

#[test]
fn other_kinds_are_skipped() {
    let skeleton = SourceFile {
        members: vec![func(
            "run",
            &["#[allow(dead_code)]", "#[calls(helper)]", "#[inline]", "#[mutates(a, b)]", "#[calls()]"],
            Some(vec![]),
        )],
    };
    let source = SourceFile { members: vec![func("run", &[], Some(vec![call(path("helper"), vec![])]))] };
    let findings = process_files(&source, &skeleton);
    assert_eq!(
        findings,
        vec![
            Finding::Skipped { function: fn_path("run"), kind: s("allow"), raw: s("dead_code") },
            verdict(fn_path("run"), Clause::Calls(s("helper")), Outcome::Satisfied, "calls helper"),
            Finding::Skipped { function: fn_path("run"), kind: s("calls"), raw: s("") },
            Finding::Skipped { function: fn_path("run"), kind: s("inline"), raw: s("") },
            Finding::Skipped { function: fn_path("run"), kind: s("mutates"), raw: s("a,b") },
        ]
    );
    assert_eq!(
        render_findings(&findings),
        "fn run: skipped: allow\n\
fn run: calls(helper): Satisfied (calls helper)\n\
fn run: skipped: calls\n\
fn run: skipped: inline\n\
fn run: skipped: mutates\n"
    );
}

#[test]
fn missing_function_gives_a_single_finding() {
    let skeleton = SourceFile {
        members: vec![
            func("gone", &["#[calls(a)]", "#[mutates(b)]", "#[allow(c)]"], Some(vec![])),
            func("here", &["#[calls(a)]"], Some(vec![])),
        ],
    };
    let source = SourceFile { members: vec![func("here", &[], Some(vec![]))] };
    let findings = process_files(&source, &skeleton);
    assert_eq!(
        findings,
        vec![
            Finding::Missing { function: fn_path("gone") },
            verdict(fn_path("here"), Clause::Calls(s("a")), Outcome::Unsatisfied, "no call to a"),
        ]
    );
    assert_eq!(
        render_findings(&findings),
        "fn gone: declared but missing\nfn here: calls(a): Unsatisfied (no call to a)\n"
    );
}

#[test]
fn functions_are_matched_by_their_whole_path() {
    let skeleton = SourceFile {
        members: vec![
            block(Some(ScopeKind::Impl), "Counter", vec![func("bump", &["#[mutates(n)]"], Some(vec![]))]),
            block(Some(ScopeKind::Impl), "Other", vec![func("bump", &["#[mutates(n)]"], Some(vec![]))]),
            func("bump", &["#[mutates(n)]"], Some(vec![])),
        ],
    };
    let writes = assign(field(path("self"), "n"), path("x"));
    let source = SourceFile {
        members: vec![
            block(Some(ScopeKind::Impl), "Counter", vec![func("reset", &[], Some(vec![]))]),
            block(Some(ScopeKind::Struct), "Other", vec![func("bump", &[], Some(vec![]))]),
            block(None, "", vec![func("bump", &[], Some(vec![]))]),
            block(Some(ScopeKind::Impl), "Counter", vec![func("bump", &[], Some(vec![writes]))]),
        ],
    };
    assert_eq!(
        process_files(&source, &skeleton),
        vec![
            verdict(
                method_path("Counter", "bump"),
                Clause::Mutates(s("n")),
                Outcome::Satisfied,
                "assigns to field n"
            ),
            Finding::Missing { function: method_path("Other", "bump") },
            verdict(
                fn_path("bump"),
                Clause::Mutates(s("n")),
                Outcome::Unsatisfied,
                "no assignment to field n"
            ),
        ]
    );
}

#[test]
fn first_declaration_of_a_path_is_the_one_checked() {
    let writes = assign(field(path("self"), "n"), path("x"));
    let source = SourceFile {
        members: vec![func("f", &[], Some(vec![])), func("f", &[], Some(vec![writes]))],
    };
    let found = find_declaration(&source, &fn_path("f"));
    assert_eq!(found.map(|item| item.body.as_ref().map(|b| b.len())), Some(Some(0)));
    assert_eq!(find_declaration(&source, &fn_path("g")), None);
    assert_eq!(find_declaration(&source, &vec![]), None);
    assert_eq!(find_declaration(&source, &method_path("T", "f")), None);
}

#[test]
fn annotations_of_other_declarations_give_no_finding() {
    let skeleton = SourceFile {
        members: vec![
            Member::Annotation(Annotation { path: vec![s("calls")], tokens: s("#![calls(a)]") }),
            block(
                Some(ScopeKind::Struct),
                "S",
                vec![Member::Annotation(Annotation {
                    path: vec![s("mutates")],
                    tokens: s("#[mutates(a)]"),
                })],
            ),
        ],
    };
    let source = SourceFile { members: vec![] };
    assert_eq!(extract_annotations(&skeleton).len(), 2);
    assert_eq!(process_files(&source, &skeleton), vec![]);
    assert_eq!(render_findings(&vec![]), "");
}

#[test]
fn verification_gives_the_same_findings_each_time() {
    let skeleton = SourceFile {
        members: vec![
            func("a", &["#[calls(b)]", "#[mutates(c)]", "#[other(d)]"], Some(vec![])),
            func("z", &["#[calls(b)]"], Some(vec![])),
        ],
    };
    let source = SourceFile {
        members: vec![func("a", &[], Some(vec![call(path("b"), vec![]), increment()]))],
    };
    let map = extract_annotations(&skeleton);
    let first = verify_contracts(&source, &map);
    let second = verify_contracts(&source, &map);
    assert_eq!(first, second);
    assert_eq!(first, process_files(&source, &skeleton));
    assert_eq!(first.len(), 4);
}

#[test]
fn map_entries_are_checked_in_order() {
    let map = vec![
        ItemMacros {
            owner: fn_path("f"),
            kinds: vec![
                KindMacros { kind: s("calls"), args: vec![s("a"), s("b")] },
                KindMacros { kind: s("mutates"), args: vec![s("c")] },
            ],
        },
        ItemMacros { owner: fn_path("f"), kinds: vec![KindMacros { kind: s("calls"), args: vec![s("a")] }] },
    ];
    let source = SourceFile { members: vec![func("f", &[], Some(vec![call(path("b"), vec![])]))] };
    assert_eq!(
        verify_contracts(&source, &map),
        vec![
            verdict(fn_path("f"), Clause::Calls(s("a")), Outcome::Unsatisfied, "no call to a"),
            verdict(fn_path("f"), Clause::Calls(s("b")), Outcome::Satisfied, "calls b"),
            verdict(
                fn_path("f"),
                Clause::Mutates(s("c")),
                Outcome::Unsatisfied,
                "no assignment to field c"
            ),
            verdict(fn_path("f"), Clause::Calls(s("a")), Outcome::Unsatisfied, "no call to a"),
        ]
    );
}

#[test]
fn clauses_are_read_from_kind_and_argument() {
    assert_eq!(parse_clause(&s("mutates"), &s("counter")), Clause::Mutates(s("counter")));
    assert_eq!(parse_clause(&s("calls"), &s("_helper2")), Clause::Calls(s("_helper2")));
    assert_eq!(
        parse_clause(&s("requires"), &s("x")),
        Clause::Unknown { kind: s("requires"), raw: s("x") }
    );
    assert_eq!(parse_clause(&s("mutates"), &s("")), Clause::Unknown { kind: s("mutates"), raw: s("") });
    assert_eq!(
        parse_clause(&s("calls"), &s("a::b")),
        Clause::Unknown { kind: s("calls"), raw: s("a::b") }
    );
    assert_eq!(
        parse_clause(&s("Mutates"), &s("x")),
        Clause::Unknown { kind: s("Mutates"), raw: s("x") }
    );
    assert_eq!(
        parse_clause(&s("mutates"), &s(" x")),
        Clause::Unknown { kind: s("mutates"), raw: s(" x") }
    );
}

#[test]
fn identifiers_are_letters_digits_and_underscores() {
    assert!(check_identifier("counter"));
    assert!(check_identifier("_"));
    assert!(check_identifier("A9_z"));
    assert!(!check_identifier(""));
    assert!(!check_identifier("9a"));
    assert!(!check_identifier("a b"));
    assert!(!check_identifier("a,b"));
    assert!(!check_identifier("a-b"));
    assert!(!check_identifier("é"));
    assert!(!check_identifier("a."));
}

#[test]
fn assignments_are_found_at_any_depth() {
    let counter = s("counter");
    let direct = assign(field(path("self"), "counter"), path("x"));
    assert!(expr_assigns_field(&direct, &counter));
    assert!(expr_assigns_field(&assign(field(field(path("a"), "b"), "counter"), path("x")), &counter));
    assert!(!expr_assigns_field(&assign(field(field(path("a"), "counter"), "b"), path("x")), &counter));
    assert!(!expr_assigns_field(&assign(path("counter"), path("x")), &counter));
    assert!(!expr_assigns_field(&field(path("self"), "counter"), &counter));
    assert!(!expr_assigns_field(&path("counter"), &counter));
    let in_value = assign(path("y"), other(vec![assign(field(path("s"), "counter"), path("x"))]));
    assert!(expr_assigns_field(&in_value, &counter));
    let in_target = assign(
        field(other(vec![assign(field(path("s"), "counter"), path("x"))]), "z"),
        path("x"),
    );
    assert!(expr_assigns_field(&in_target, &counter));
    let in_args = call(path("f"), vec![path("a"), other(vec![path("b"), direct])]);
    assert!(expr_assigns_field(&in_args, &counter));
    let in_callee = call(other(vec![assign(field(path("s"), "counter"), path("x"))]), vec![]);
    assert!(expr_assigns_field(&in_callee, &counter));
    let in_receiver =
        method(other(vec![assign(field(path("s"), "counter"), path("x"))]), "m", vec![]);
    assert!(expr_assigns_field(&in_receiver, &counter));
    let in_method_args =
        method(path("s"), "m", vec![assign(field(path("s"), "counter"), path("x"))]);
    assert!(expr_assigns_field(&in_method_args, &counter));
    let in_base = field(other(vec![assign(field(path("s"), "counter"), path("x"))]), "z");
    assert!(expr_assigns_field(&in_base, &counter));
    assert!(!body_assigns_field(&vec![], &counter));
    assert!(body_assigns_field(&vec![path("a"), increment()], &counter));
    assert!(!body_assigns_field(&vec![path("a"), increment()], &s("count")));
}

#[test]
fn calls_are_found_by_the_last_segment_of_the_callee() {
    let helper = s("helper");
    assert!(expr_calls_function(&call(path("helper"), vec![]), &helper));
    assert!(expr_calls_function(&call(path("a::b::helper"), vec![]), &helper));
    assert!(!expr_calls_function(&call(path("helper::new"), vec![]), &helper));
    assert!(!expr_calls_function(&call(Expr::Path(vec![]), vec![]), &helper));
    assert!(expr_calls_function(&method(path("self"), "helper", vec![]), &helper));
    assert!(!expr_calls_function(&method(path("helper"), "run", vec![]), &helper));
    assert!(!expr_calls_function(&call(field(path("s"), "helper"), vec![]), &helper));
    assert!(!expr_calls_function(&path("helper"), &helper));
    let nested = other(vec![assign(path("x"), call(path("f"), vec![call(path("helper"), vec![])]))]);
    assert!(expr_calls_function(&nested, &helper));
    let in_target = assign(field(call(path("helper"), vec![]), "z"), path("x"));
    assert!(expr_calls_function(&in_target, &helper));
    let in_receiver = method(call(path("helper"), vec![]), "m", vec![]);
    assert!(expr_calls_function(&in_receiver, &helper));
    let in_method_args = method(path("s"), "m", vec![method(path("t"), "helper", vec![])]);
    assert!(expr_calls_function(&in_method_args, &helper));
    let in_callee = call(call(path("helper"), vec![]), vec![]);
    assert!(expr_calls_function(&in_callee, &helper));
    assert!(!body_calls_function(&vec![], &helper));
    assert!(body_calls_function(&vec![path("a"), nested], &helper));
}

#[test]
fn clauses_are_checked_against_a_body() {
    let body = Some(vec![increment(), call(path("helper"), vec![])]);
    assert_eq!(check_clause(&Clause::Mutates(s("counter")), &body), Outcome::Satisfied);
    assert_eq!(check_clause(&Clause::Mutates(s("other")), &body), Outcome::Unsatisfied);
    assert_eq!(check_clause(&Clause::Mutates(s("counter")), &None), Outcome::Inconclusive);
    assert_eq!(check_clause(&Clause::Calls(s("helper")), &body), Outcome::Satisfied);
    assert_eq!(check_clause(&Clause::Calls(s("other")), &body), Outcome::Unsatisfied);
    assert_eq!(check_clause(&Clause::Calls(s("helper")), &None), Outcome::Unsatisfied);
    let unknown = Clause::Unknown { kind: s("k"), raw: s("r") };
    assert_eq!(check_clause(&unknown, &body), Outcome::Inconclusive);
    assert_eq!(explain(&unknown, Outcome::Inconclusive), "not checked");
    assert_eq!(explain(&Clause::Calls(s("f")), Outcome::Inconclusive), "no body to inspect");
    assert_eq!(
        check_annotation(&fn_path("f"), &body, &s("mutates"), &s("counter")),
        verdict(
            fn_path("f"),
            Clause::Mutates(s("counter")),
            Outcome::Satisfied,
            "assigns to field counter"
        )
    );
    assert_eq!(
        check_annotation(&fn_path("f"), &body, &s("doc"), &s("text")),
        Finding::Skipped { function: fn_path("f"), kind: s("doc"), raw: s("text") }
    );
}

#[test]
fn report_names_function_clause_and_outcome() {
    let findings = vec![
        verdict(
            method_path("Counter", "bump"),
            Clause::Mutates(s("n")),
            Outcome::Inconclusive,
            "no body to inspect",
        ),
        verdict(vec![], Clause::Unknown { kind: s("k"), raw: s("r") }, Outcome::Unsatisfied, ""),
    ];
    assert_eq!(
        render_findings(&findings),
        "impl Counter::fn bump: mutates(n): Inconclusive (no body to inspect)\n\
module: k(r): Unsatisfied ()\n"
    );
}
