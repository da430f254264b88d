use rtl_transpiler::errors::ParseError;
use rtl_transpiler::ir::{PortDirection, VHDLType};
use rtl_transpiler::parser::ast_lifter::parse_entities_from_tree;
use rtl_transpiler::parser::syntax_tree::{SyntaxNode, VHDLASTHelper};

fn node(kind: &str, text: &str, children: Vec<SyntaxNode>) -> SyntaxNode {
    SyntaxNode {
        kind: kind.to_string(),
        text: text.to_string(),
        is_error: false,
        children,
    }
}

fn leaf(kind: &str, text: &str) -> SyntaxNode {
    node(kind, text, vec![])
}

/// The tree of `clk : in std_logic` as the grammar shapes it.
fn port_decl(names: &[&str], mode: &str, type_children: Vec<SyntaxNode>, text: &str) -> SyntaxNode {
    let ids = names.iter().map(|n| leaf("identifier", n)).collect();
    node(
        "signal_interface_declaration",
        text,
        vec![
            node("identifier_list", text, ids),
            leaf("mode", mode),
            node("subtype_indication", text, type_children),
        ],
    )
}

fn scalar_type(name: &str) -> Vec<SyntaxNode> {
    vec![node("type_mark", name, vec![leaf("simple_name", name)])]
}

fn vector_type(name: &str, left: &str, dir_kind: &str, right: &str) -> Vec<SyntaxNode> {
    vec![
        node("type_mark", name, vec![leaf("simple_name", name)]),
        node(
            "array_constraint",
            "",
            vec![node(
                "index_constraint",
                "",
                vec![node(
                    dir_kind,
                    "",
                    vec![
                        node("simple_expression", left, vec![leaf("integer_decimal", left)]),
                        node("simple_expression", right, vec![leaf("integer_decimal", right)]),
                    ],
                )],
            )],
        ),
    ]
}

fn counter_tree() -> SyntaxNode {
    let ports = node(
        "port_clause",
        "",
        vec![
            port_decl(&["clk"], "in", scalar_type("std_logic"), "clk : in std_logic"),
            port_decl(&["reset"], "in", scalar_type("std_logic"), "reset : in std_logic"),
            port_decl(
                &["count"],
                "out",
                vector_type("std_logic_vector", "7", "descending_range", "0"),
                "count : out std_logic_vector(7 downto 0)",
            ),
        ],
    );
    let entity = node(
        "entity_declaration",
        "entity counter is ... end entity counter;",
        vec![leaf("identifier", "counter"), node("entity_header", "", vec![ports])],
    );
    node("design_file", "", vec![entity])
}

#[test]
fn test_tree_lift_counter_entity() {
    let tree = counter_tree();
    let entities = parse_entities_from_tree(&tree).unwrap();
    assert_eq!(entities.len(), 1);
    assert_eq!(entities[0].name, "counter");
    assert_eq!(entities[0].ports.len(), 3);
    assert_eq!(entities[0].ports[0].name, "clk");
    assert_eq!(entities[0].ports[0].direction, PortDirection::In);
    assert_eq!(entities[0].ports[2].name, "count");
    assert_eq!(entities[0].ports[2].direction, PortDirection::Out);
    match &entities[0].ports[2].port_type {
        VHDLType::StdLogicVector(r) => {
            assert_eq!(r.left, 7);
            assert_eq!(r.right, 0);
            assert!(r.downto);
        }
        other => panic!("expected a vector type, got {:?}", other),
    }
    assert!(entities[0].architecture.is_none());
}

#[test]
fn test_tree_lift_identifier_list_expansion() {
    let ports = node(
        "port_clause",
        "",
        vec![port_decl(&["a", "b", "c"], "in", scalar_type("bit"), "a, b, c : in bit")],
    );
    let entity = node(
        "entity_declaration",
        "",
        vec![leaf("identifier", "trio"), node("entity_header", "", vec![ports])],
    );
    let tree = node("design_file", "", vec![entity]);
    let entities = parse_entities_from_tree(&tree).unwrap();
    assert_eq!(entities[0].ports.len(), 3);
    assert_eq!(entities[0].ports[0].name, "a");
    assert_eq!(entities[0].ports[1].name, "b");
    assert_eq!(entities[0].ports[2].name, "c");
    assert!(entities[0].ports.iter().all(|p| p.port_type == VHDLType::Bit));
}

#[test]
fn test_tree_lift_refuses_error_marked_tree() {
    let mut bad = counter_tree();
    bad.children[0].children[1].is_error = true;
    match parse_entities_from_tree(&bad) {
        Err(ParseError::Syntax) => {}
        other => panic!("expected a syntax error, got {:?}", other),
    }
}

#[test]
fn test_tree_lift_entity_missing_name() {
    let entity = node("entity_declaration", "entity is end;", vec![]);
    let tree = node("design_file", "", vec![entity]);
    match parse_entities_from_tree(&tree) {
        Err(ParseError::MissingEntityName) => {}
        other => panic!("expected a missing-name error, got {:?}", other),
    }
}

#[test]
fn test_tree_lift_invalid_direction() {
    let ports = node(
        "port_clause",
        "",
        vec![port_decl(&["x"], "sideways", scalar_type("bit"), "x : sideways bit")],
    );
    let entity = node(
        "entity_declaration",
        "",
        vec![leaf("identifier", "bad"), node("entity_header", "", vec![ports])],
    );
    let tree = node("design_file", "", vec![entity]);
    match parse_entities_from_tree(&tree) {
        Err(ParseError::InvalidPortDirection(w)) => assert_eq!(w, "sideways"),
        other => panic!("expected an invalid-direction error, got {:?}", other),
    }
}

#[test]
fn test_tree_lift_bad_entity_dropped_when_another_lifts() {
    // a structural error is fatal to its own entity only
    let bad = node("entity_declaration", "entity is end;", vec![]);
    let good = node(
        "entity_declaration",
        "",
        vec![leaf("identifier", "good"), node("entity_header", "", vec![node(
            "port_clause",
            "",
            vec![port_decl(&["y"], "out", scalar_type("bit"), "y : out bit")],
        )])],
    );
    let tree = node("design_file", "", vec![bad, good]);
    let entities = parse_entities_from_tree(&tree).unwrap();
    assert_eq!(entities.len(), 1);
    assert_eq!(entities[0].name, "good");
    assert_eq!(entities[0].ports[0].name, "y");
}

#[test]
fn test_tree_lift_generic_list_expansion() {
    // one generic per identifier, all sharing the type and default
    let generic_clause = node(
        "generic_clause",
        "",
        vec![node(
            "generic_interface_list",
            "",
            vec![node(
                "interface_constant_declaration",
                "WIDTH, DEPTH : integer := 4",
                vec![
                    node("identifier_list", "WIDTH, DEPTH", vec![
                        leaf("identifier", "WIDTH"),
                        leaf("identifier", "DEPTH"),
                    ]),
                    node("subtype_indication", "integer", vec![leaf("type_mark", "integer")]),
                    leaf("expression", "4"),
                ],
            )],
        )],
    );
    let entity = node(
        "entity_declaration",
        "",
        vec![leaf("identifier", "paired"), generic_clause, node("entity_header", "", vec![])],
    );
    let tree = node("design_file", "", vec![entity]);
    let entities = parse_entities_from_tree(&tree).unwrap();
    assert_eq!(entities[0].generics.len(), 2);
    assert_eq!(entities[0].generics[0].name, "WIDTH");
    assert_eq!(entities[0].generics[1].name, "DEPTH");
    assert!(entities[0].generics.iter().all(|g| g.generic_type == "integer"));
    assert!(entities[0].generics.iter().all(|g| g.default_value.as_deref() == Some("4")));
}

#[test]
fn test_tree_lift_generic_dependent_bound_falls_back() {
    // a bound like WIDTH-1 cannot be evaluated; the documented fallback is 7
    let ports = node(
        "port_clause",
        "",
        vec![node(
            "signal_interface_declaration",
            "data : in std_logic_vector(WIDTH-1 downto 0)",
            vec![
                node("identifier_list", "data", vec![leaf("identifier", "data")]),
                leaf("mode", "in"),
                node(
                    "subtype_indication",
                    "",
                    vec![
                        node("type_mark", "std_logic_vector",
                            vec![leaf("simple_name", "std_logic_vector")]),
                        node(
                            "array_constraint",
                            "",
                            vec![node(
                                "index_constraint",
                                "",
                                vec![node(
                                    "descending_range",
                                    "",
                                    vec![
                                        node("simple_expression", "WIDTH-1", vec![]),
                                        node("simple_expression", "0",
                                            vec![leaf("integer_decimal", "0")]),
                                    ],
                                )],
                            )],
                        ),
                    ],
                ),
            ],
        )],
    );
    let entity = node(
        "entity_declaration",
        "",
        vec![leaf("identifier", "wide"), node("entity_header", "", vec![ports])],
    );
    let tree = node("design_file", "", vec![entity]);
    let entities = parse_entities_from_tree(&tree).unwrap();
    match &entities[0].ports[0].port_type {
        VHDLType::StdLogicVector(r) => {
            assert_eq!(r.left, 7);
            assert_eq!(r.right, 0);
        }
        other => panic!("expected a vector type, got {:?}", other),
    }
}

#[test]
fn test_tree_lift_architecture_binding_and_generics() {
    let generic_clause = node(
        "generic_clause",
        "",
        vec![node(
            "generic_interface_list",
            "",
            vec![node(
                "interface_constant_declaration",
                "WIDTH : integer := 8",
                vec![
                    node("identifier_list", "WIDTH", vec![leaf("identifier", "WIDTH")]),
                    node("subtype_indication", "integer", vec![leaf("type_mark", "integer")]),
                    leaf("expression", "8"),
                ],
            )],
        )],
    );
    let entity = node(
        "entity_declaration",
        "",
        vec![leaf("identifier", "gadget"), generic_clause, node("entity_header", "", vec![])],
    );
    let process = node(
        "process_statement",
        "",
        vec![
            node("sensitivity_list", "clk", vec![leaf("simple_name", "clk")]),
            leaf("sequence_of_statements", "q <= d;"),
        ],
    );
    let arch = node(
        "architecture_body",
        "architecture rtl of gadget is begin end architecture;",
        vec![
            leaf("identifier", "rtl"),
            leaf("identifier", "gadget"),
            node("declarative_part", "", vec![node(
                "signal_declaration",
                "signal q : bit;",
                vec![
                    node("identifier_list", "q", vec![leaf("identifier", "q")]),
                    node("subtype_indication", "bit", scalar_type("bit")),
                ],
            )]),
            node("concurrent_statement_part", "", vec![
                process,
                leaf("simple_concurrent_signal_assignment", "y <= q and d;"),
            ]),
        ],
    );
    let tree = node("design_file", "", vec![entity, arch]);
    let entities = parse_entities_from_tree(&tree).unwrap();
    assert_eq!(entities.len(), 1);
    assert_eq!(entities[0].generics.len(), 1);
    assert_eq!(entities[0].generics[0].name, "WIDTH");
    assert_eq!(entities[0].generics[0].generic_type, "integer");
    assert_eq!(entities[0].generics[0].default_value.as_deref(), Some("8"));
    let a = entities[0].architecture.as_ref().expect("architecture should bind");
    assert_eq!(a.name, "rtl");
    assert_eq!(a.signals.len(), 1);
    assert_eq!(a.signals[0].name, "q");
    assert_eq!(a.processes.len(), 1);
    assert_eq!(a.processes[0].sensitivity_list, vec!["clk"]);
    assert_eq!(a.processes[0].body, "q <= d;");
    assert_eq!(a.concurrent_statements, vec!["y <= q and d;"]);
}

#[test]
fn test_lifters_agree_at_ir_boundary() {
    // the same source unit, through the character-level lifter and through
    // the tree of the same declarations: one IR
    let source = "entity counter is\n    port(\n        clk   : in  std_logic;\n        reset : in  std_logic;\n        count : out std_logic_vector(7 downto 0)\n    );\nend entity counter;\n";
    let text_entities = rtl_transpiler::parser::VHDLParser::new(source.to_string())
        .parse_entities()
        .unwrap();
    let tree_entities = parse_entities_from_tree(&counter_tree()).unwrap();
    assert_eq!(text_entities.len(), tree_entities.len());
    let (a, b) = (&text_entities[0], &tree_entities[0]);
    assert_eq!(a.name, b.name);
    assert_eq!(a.ports.len(), b.ports.len());
    for (p, q) in a.ports.iter().zip(b.ports.iter()) {
        assert_eq!(p.name, q.name);
        assert_eq!(p.direction, q.direction);
        assert_eq!(p.port_type, q.port_type);
    }
}

#[test]
fn test_tree_query_helpers() {
    let tree = counter_tree();
    let entities = VHDLASTHelper::find_all_nodes_by_type(&tree, "entity_declaration");
    assert_eq!(entities.len(), 1);
    let ids = VHDLASTHelper::find_all_nodes_by_type(&tree, "identifier");
    assert_eq!(ids.len(), 4); // entity name + three port names
    assert_eq!(VHDLASTHelper::node_text(ids[0]), "counter");
    assert!(VHDLASTHelper::find_child_by_type(&tree, "architecture_body").is_none());
    let direct = VHDLASTHelper::find_children_by_type(entities[0], "identifier");
    assert_eq!(direct.len(), 1);
}
