use contract_watch::extractor::{
    compile_macros, extract_annotations, find_annotations, record, render_macros,
    trim_macro_contents, ItemMacros, KindMacros, MacroExtractor,
};
use contract_watch::tree::{Annotation, Item, Member, ScopeKind, SourceFile};
use contract_watch::walker::{qualified_name, same_path, walk_file, Frame, WalkEvent};

fn note(name: &str, tokens: &str) -> Member {
    Member::Annotation(Annotation {
        path: name.split("::").map(|s| s.to_string()).collect(),
        tokens: tokens.to_string(),
    })
}

fn decl(scope: ScopeKind, name: &str, members: Vec<Member>) -> Member {
    Member::Item(Item {
        scope: Some(scope),
        name: name.to_string(),
        params: String::new(),
        members,
        body: if scope == ScopeKind::Function { Some(Vec::new()) } else { None },
    })
}

fn plain(members: Vec<Member>) -> Member {
    Member::Item(Item {
        scope: None,
        name: String::new(),
        params: String::new(),
        members,
        body: None,
    })
}

fn frame(kind: ScopeKind, name: &str) -> Frame {
    Frame { kind, name: name.to_string() }
}

fn texts(items: &[&str]) -> Vec<String> {
    items.iter().map(|s| s.to_string()).collect()
}

fn sample_file() -> SourceFile {
    SourceFile {
        members: vec![
            note("allow", "# ! [allow (dead_code)]"),
            decl(
                ScopeKind::Struct,
                "MyStruct",
                vec![
                    note("derive", "# [derive (Debug , Clone)]"),
                    note("allow", "# [allow (non_snake_case)]"),
                    note("allow", "# [allow (unused)]"),
                ],
            ),
            decl(
                ScopeKind::Impl,
                "MyStruct",
                vec![decl(
                    ScopeKind::Function,
                    "my_method",
                    vec![
                        note("deprecated", "# [deprecated]"),
                        note("allow", "# [allow (dead_code)]"),
                        note("clippy::ptr_arg", "# [allow (clippy :: ptr_arg)]"),
                    ],
                )],
            ),
            decl(
                ScopeKind::Module,
                "inner",
                vec![decl(
                    ScopeKind::Enum,
                    "Shape",
                    vec![decl(ScopeKind::Variant, "Round", vec![note("doc", "# [doc (\"a, b\")]")])],
                )],
            ),
        ],
    }
}

#[test]
fn trim_takes_the_payload_between_the_outer_parentheses() {
    assert_eq!(trim_macro_contents("# [allow (dead_code)]"), "dead_code");
    assert_eq!(trim_macro_contents("#[cfg(any(a, b))]"), "any(a,b)");
    assert_eq!(trim_macro_contents("(x)"), "x");
    assert_eq!(trim_macro_contents("a(b)c)d"), "b)c");
    assert_eq!(trim_macro_contents("a(b(c)d"), "b(c");
}

#[test]
fn trim_removes_one_space_after_each_comma() {
    assert_eq!(trim_macro_contents("#[derive(Debug, Clone)]"), "Debug,Clone");
    assert_eq!(trim_macro_contents("# [derive (Debug , Clone)]"), "Debug ,Clone");
    assert_eq!(trim_macro_contents("(a,  b)"), "a, b");
    assert_eq!(trim_macro_contents("(a, , b)"), "a,,b");
    assert_eq!(trim_macro_contents("(a,b, c,d)"), "a,b,c,d");
    assert_eq!(trim_macro_contents("(, )"), ",");
}

#[test]
fn trim_keeps_all_other_whitespace() {
    assert_eq!(trim_macro_contents("( a b )"), " a b ");
    assert_eq!(trim_macro_contents("(\ta,\tb\n)"), "\ta,\tb\n");
    assert_eq!(trim_macro_contents("#[doc(\"a  b, c\")]"), "\"a  b,c\"");
    assert_eq!(trim_macro_contents("( )"), " ");
}

#[test]
fn trim_gives_the_empty_text_without_a_payload() {
    assert_eq!(trim_macro_contents("# [deprecated]"), "");
    assert_eq!(trim_macro_contents(""), "");
    assert_eq!(trim_macro_contents("()"), "");
    assert_eq!(trim_macro_contents(")("), "");
    assert_eq!(trim_macro_contents("x)"), "");
    assert_eq!(trim_macro_contents("(x"), "");
    assert_eq!(trim_macro_contents("a)b(c"), "");
}

#[test]
fn trim_handles_text_outside_ascii() {
    assert_eq!(trim_macro_contents("é(ü, ß)é"), "ü,ß");
}

#[test]
fn walk_reports_events_in_source_order() {
    let file = SourceFile {
        members: vec![
            note("a", "#[a]"),
            decl(
                ScopeKind::Impl,
                "T",
                vec![note("b", "#[b]"), decl(ScopeKind::Function, "f", vec![note("c", "#[c]")])],
            ),
        ],
    };
    let events = walk_file(&file);
    let a = Annotation { path: texts(&["a"]), tokens: "#[a]".to_string() };
    let b = Annotation { path: texts(&["b"]), tokens: "#[b]".to_string() };
    let c = Annotation { path: texts(&["c"]), tokens: "#[c]".to_string() };
    let expected = vec![
        WalkEvent::Annotation { owner: vec![], annotation: a },
        WalkEvent::Enter(frame(ScopeKind::Impl, "T")),
        WalkEvent::Annotation { owner: vec![frame(ScopeKind::Impl, "T")], annotation: b },
        WalkEvent::Enter(frame(ScopeKind::Function, "f")),
        WalkEvent::Annotation {
            owner: vec![frame(ScopeKind::Impl, "T"), frame(ScopeKind::Function, "f")],
            annotation: c,
        },
        WalkEvent::Leave,
        WalkEvent::Leave,
    ];
    assert_eq!(events, expected);
}

#[test]
fn walk_enters_as_often_as_it_leaves() {
    let events = walk_file(&sample_file());
    let enters = events.iter().filter(|e| matches!(e, WalkEvent::Enter(_))).count();
    let leaves = events.iter().filter(|e| matches!(e, WalkEvent::Leave)).count();
    assert_eq!(enters, 6);
    assert_eq!(leaves, 6);
    let mut depth: usize = 0;
    for event in &events {
        match event {
            WalkEvent::Enter(_) => depth += 1,
            WalkEvent::Leave => {
                assert!(depth > 0);
                depth -= 1;
            }
            WalkEvent::Annotation { owner, .. } => assert_eq!(owner.len(), depth),
        }
    }
    assert_eq!(depth, 0);
}

#[test]
fn walk_of_an_empty_declaration_is_balanced() {
    let file = SourceFile { members: vec![decl(ScopeKind::Struct, "Empty", vec![])] };
    let events = walk_file(&file);
    assert_eq!(events, vec![WalkEvent::Enter(frame(ScopeKind::Struct, "Empty")), WalkEvent::Leave]);
    assert_eq!(walk_file(&SourceFile { members: vec![] }), vec![]);
}

#[test]
fn walk_looks_through_items_without_a_scope() {
    let file = SourceFile {
        members: vec![plain(vec![
            note("a", "#[a(1)]"),
            decl(ScopeKind::Function, "f", vec![note("b", "#[b(2)]")]),
        ])],
    };
    let map = extract_annotations(&file);
    assert_eq!(map.len(), 2);
    assert_eq!(map[0].owner, vec![]);
    assert_eq!(map[1].owner, vec![frame(ScopeKind::Function, "f")]);
}

#[test]
fn qualified_names_join_the_frames() {
    assert_eq!(qualified_name(&vec![]), "module");
    assert_eq!(qualified_name(&vec![frame(ScopeKind::Function, "f")]), "fn f");
    assert_eq!(
        qualified_name(&vec![
            frame(ScopeKind::Module, "m"),
            frame(ScopeKind::Impl, "Vec < T >"),
            frame(ScopeKind::Function, "push"),
        ]),
        "mod m::impl Vec < T >::fn push"
    );
    assert_eq!(
        qualified_name(&vec![frame(ScopeKind::Enum, "E"), frame(ScopeKind::Variant, "V")]),
        "enum E::variant V"
    );
    assert_eq!(qualified_name(&vec![frame(ScopeKind::Struct, "S")]), "struct S");
}

#[test]
fn paths_are_compared_frame_by_frame() {
    let a = vec![frame(ScopeKind::Impl, "T"), frame(ScopeKind::Function, "f")];
    let b = vec![frame(ScopeKind::Impl, "T"), frame(ScopeKind::Function, "f")];
    let c = vec![frame(ScopeKind::Impl, "T"), frame(ScopeKind::Function, "g")];
    let d = vec![frame(ScopeKind::Module, "T"), frame(ScopeKind::Function, "f")];
    assert!(same_path(&a, &b));
    assert!(!same_path(&a, &c));
    assert!(!same_path(&a, &d));
    assert!(!same_path(&a, &a[..1].iter().map(|f| frame(f.kind, &f.name)).collect()));
    assert!(same_path(&vec![], &vec![]));
}

#[test]
fn extraction_groups_annotations_by_declaration_and_kind() {
    let map = extract_annotations(&sample_file());
    let expected = vec![
        ItemMacros {
            owner: vec![],
            kinds: vec![KindMacros { kind: "allow".to_string(), args: texts(&["dead_code"]) }],
        },
        ItemMacros {
            owner: vec![frame(ScopeKind::Struct, "MyStruct")],
            kinds: vec![
                KindMacros { kind: "derive".to_string(), args: texts(&["Debug ,Clone"]) },
                KindMacros {
                    kind: "allow".to_string(),
                    args: texts(&["non_snake_case", "unused"]),
                },
            ],
        },
        ItemMacros {
            owner: vec![frame(ScopeKind::Impl, "MyStruct"), frame(ScopeKind::Function, "my_method")],
            kinds: vec![
                KindMacros { kind: "deprecated".to_string(), args: texts(&[""]) },
                KindMacros { kind: "allow".to_string(), args: texts(&["dead_code"]) },
                KindMacros { kind: "ptr_arg".to_string(), args: texts(&["clippy :: ptr_arg"]) },
            ],
        },
        ItemMacros {
            owner: vec![
                frame(ScopeKind::Module, "inner"),
                frame(ScopeKind::Enum, "Shape"),
                frame(ScopeKind::Variant, "Round"),
            ],
            kinds: vec![KindMacros { kind: "doc".to_string(), args: texts(&["\"a,b\""]) }],
        },
    ];
    assert_eq!(map, expected);
}

#[test]
fn extraction_keeps_repeated_annotations_in_source_order() {
    let file = SourceFile {
        members: vec![
            decl(
                ScopeKind::Function,
                "f",
                vec![
                    note("calls", "#[calls(b)]"),
                    note("mutates", "#[mutates(x)]"),
                    note("calls", "#[calls(a)]"),
                    note("calls", "#[calls(b)]"),
                ],
            ),
            decl(ScopeKind::Function, "g", vec![note("calls", "#[calls(c)]")]),
            decl(ScopeKind::Function, "f", vec![note("calls", "#[calls(d)]")]),
        ],
    };
    let map = extract_annotations(&file);
    let f = vec![frame(ScopeKind::Function, "f")];
    let g = vec![frame(ScopeKind::Function, "g")];
    assert_eq!(map.len(), 2);
    assert_eq!(find_annotations(&map, &f, &"calls".to_string()), texts(&["b", "a", "b", "d"]));
    assert_eq!(find_annotations(&map, &f, &"mutates".to_string()), texts(&["x"]));
    assert_eq!(find_annotations(&map, &g, &"calls".to_string()), texts(&["c"]));
    assert_eq!(find_annotations(&map, &g, &"mutates".to_string()), texts(&[]));
    assert_eq!(find_annotations(&map, &vec![], &"calls".to_string()), texts(&[]));
}

#[test]
fn annotation_without_a_name_is_of_kind_unknown() {
    let file = SourceFile {
        members: vec![Member::Annotation(Annotation { path: vec![], tokens: "#[(x)]".to_string() })],
    };
    let map = extract_annotations(&file);
    assert_eq!(find_annotations(&map, &vec![], &"unknown".to_string()), texts(&["x"]));
}

#[test]
fn record_appends_to_the_entry_of_a_declaration() {
    let mut map: Vec<ItemMacros> = Vec::new();
    let f = vec![frame(ScopeKind::Function, "f")];
    let g = vec![frame(ScopeKind::Function, "g")];
    record(&mut map, &f, "calls".to_string(), "a".to_string());
    record(&mut map, &g, "calls".to_string(), "b".to_string());
    record(&mut map, &f, "mutates".to_string(), "c".to_string());
    record(&mut map, &f, "calls".to_string(), "d".to_string());
    let expected = vec![
        ItemMacros {
            owner: vec![frame(ScopeKind::Function, "f")],
            kinds: vec![
                KindMacros { kind: "calls".to_string(), args: texts(&["a", "d"]) },
                KindMacros { kind: "mutates".to_string(), args: texts(&["c"]) },
            ],
        },
        ItemMacros {
            owner: vec![frame(ScopeKind::Function, "g")],
            kinds: vec![KindMacros { kind: "calls".to_string(), args: texts(&["b"]) }],
        },
    ];
    assert_eq!(map, expected);
}

#[test]
fn extractor_visits_attributes_one_by_one() {
    let mut extractor = MacroExtractor::new();
    assert_eq!(extractor.item_macros, vec![]);
    let owner = vec![frame(ScopeKind::Struct, "S")];
    let first = Annotation { path: texts(&["derive"]), tokens: "#[derive(A, B)]".to_string() };
    let second = Annotation { path: texts(&["serde", "rename"]), tokens: "#[serde::rename]".to_string() };
    extractor.visit_attribute(&owner, &first);
    extractor.visit_attribute(&owner, &second);
    assert_eq!(
        extractor.item_macros,
        vec![ItemMacros {
            owner: vec![frame(ScopeKind::Struct, "S")],
            kinds: vec![
                KindMacros { kind: "derive".to_string(), args: texts(&["A,B"]) },
                KindMacros { kind: "rename".to_string(), args: texts(&[""]) },
            ],
        }]
    );
    extractor.visit_file(&sample_file());
    assert_eq!(extractor.item_macros.len(), 5);
    extractor.visit_events(&walk_file(&sample_file()));
    assert_eq!(extractor.item_macros.len(), 5);
    assert_eq!(
        find_annotations(&extractor.item_macros, &vec![], &"allow".to_string()),
        texts(&["dead_code", "dead_code"])
    );
}

#[test]
fn report_lists_one_block_for_each_declaration() {
    let report = compile_macros(&sample_file());
    let expected = "module {\n   allow: dead_code\n}\n\n\
struct MyStruct {\n   derive: Debug ,Clone\n   allow: non_snake_case,unused\n}\n\n\
impl MyStruct::fn my_method {\n   deprecated: \n   allow: dead_code\n   ptr_arg: clippy :: ptr_arg\n}\n\n\
mod inner::enum Shape::variant Round {\n   doc: \"a,b\"\n}\n\n";
    assert_eq!(report, expected);
}

#[test]
fn report_of_nothing_is_empty() {
    assert_eq!(compile_macros(&SourceFile { members: vec![] }), "");
    assert_eq!(render_macros(&vec![]), "");
    let bare = SourceFile { members: vec![decl(ScopeKind::Function, "f", vec![])] };
    assert_eq!(compile_macros(&bare), "");
}
