use rtl_transpiler::errors::ParseError;
use rtl_transpiler::ir::{Architecture, Entity, Port, PortDirection, Process,
    SystemVerilogGenerator, VHDLType, VectorRange, VerilogGenerator};

fn counter_entity() -> Entity {
    let mut entity = Entity::new("counter".to_string());
    entity.add_port(Port::new(
        "clk".to_string(),
        PortDirection::In,
        VHDLType::StdLogic,
    ));
    entity.add_port(Port::new(
        "count".to_string(),
        PortDirection::Out,
        VHDLType::StdLogicVector(VectorRange {
            left: 7,
            right: 0,
            downto: true,
        }),
    ));
    entity.architecture = Some(Architecture {
        name: "rtl".to_string(),
        signals: vec![],
        processes: vec![Process {
            label: None,
            sensitivity_list: vec!["clk".to_string()],
            body: "count <= count + 1;".to_string(),
        }],
        concurrent_statements: vec!["y <= a".to_string()],
    });
    entity
}

#[test]
fn test_whole_module_exact_text() {
    let entity = counter_entity();
    let verilog = VerilogGenerator::new().generate(&entity).unwrap();
    assert_eq!(
        verilog,
        "module counter (\n    input wire clk,\n    output reg [7:0] count\n);\n\n    always @(posedge clk) begin\n        count <= count + 1;\n    end\n\n    assign y = a;\nendmodule\n"
    );
}

#[test]
fn test_whole_sv_module_exact_text() {
    let entity = counter_entity();
    let sv = SystemVerilogGenerator::new().generate(&entity).unwrap();
    assert_eq!(
        sv,
        "module counter (\n    input logic clk,\n    output logic [7:0] count\n);\n\n    always_ff @(posedge clk) begin\n        count <= count + 1;\n    end\n\n    assign y = a;\nendmodule\n"
    );
}

#[test]
fn test_elsif_and_operators() {
    let mut entity = Entity::new("ops".to_string());
    entity.architecture = Some(Architecture {
        name: "rtl".to_string(),
        signals: vec![],
        processes: vec![Process {
            label: None,
            sensitivity_list: vec!["clk".to_string(), "rst_n".to_string()],
            body: "if rst_n = '0' then\n    q <= '0';\nelsif rising_edge(clk) then\n    q <= a and b;\nend if;".to_string(),
        }],
        concurrent_statements: vec![],
    });
    let verilog = VerilogGenerator::new().generate(&entity).unwrap();
    // active-low reset: no high comparison in the body
    assert!(verilog.contains("always @(posedge clk or negedge rst_n) begin"));
    assert!(verilog.contains("if (rst_n == 1'b0) begin"));
    assert!(verilog.contains("end else begin"));
    assert!(verilog.contains("q <= a & b;"));
}

#[test]
fn test_if_condition_gets_parentheses() {
    // an unparenthesized source condition comes out parenthesized, and an
    // already parenthesized one keeps a single pair, in both dialects
    let mut entity = Entity::new("guard".to_string());
    entity.architecture = Some(Architecture {
        name: "rtl".to_string(),
        signals: vec![],
        processes: vec![Process {
            label: None,
            sensitivity_list: vec!["a".to_string()],
            body: "if en = '1' then\n    y <= a;\nend if;\nif (b = '0') then\n    y <= '0';\nend if;".to_string(),
        }],
        concurrent_statements: vec![],
    });
    let verilog = VerilogGenerator::new().generate(&entity).unwrap();
    println!("{}", verilog);
    assert!(verilog.contains("if (en == 1'b1) begin"));
    assert!(verilog.contains("if (b == 1'b0) begin"));
    let sv = SystemVerilogGenerator::new().generate(&entity).unwrap();
    println!("{}", sv);
    assert!(sv.contains("if (en == 1'b1) begin"));
    assert!(sv.contains("if (b == 1'b0) begin"));
}

#[test]
fn test_cast_stripping_dialects_differ() {
    let mut entity = Entity::new("casts".to_string());
    entity.architecture = Some(Architecture {
        name: "rtl".to_string(),
        signals: vec![],
        processes: vec![Process {
            label: None,
            sensitivity_list: vec!["clk".to_string()],
            body: "n <= to_integer(unsigned(x));".to_string(),
        }],
        concurrent_statements: vec![],
    });
    let verilog = VerilogGenerator::new().generate(&entity).unwrap();
    assert!(verilog.contains("n <= x;"));
    let sv = SystemVerilogGenerator::new().generate(&entity).unwrap();
    assert!(sv.contains("n <= int'(x);"));
}

#[test]
fn test_others_aggregate_dialects_differ() {
    let mut entity = Entity::new("aggr".to_string());
    entity.architecture = Some(Architecture {
        name: "rtl".to_string(),
        signals: vec![],
        processes: vec![Process {
            label: None,
            sensitivity_list: vec!["clk".to_string()],
            body: "q <= (others => '0');".to_string(),
        }],
        concurrent_statements: vec![],
    });
    let verilog = VerilogGenerator::new().generate(&entity).unwrap();
    assert!(verilog.contains("q <= 8'b0;"));
    let sv = SystemVerilogGenerator::new().generate(&entity).unwrap();
    assert!(sv.contains("q <= '0;"));
}

#[test]
fn test_selected_assignment_kept_as_comment() {
    let mut entity = Entity::new("sel".to_string());
    entity.architecture = Some(Architecture {
        name: "rtl".to_string(),
        signals: vec![],
        processes: vec![],
        concurrent_statements: vec![
            "with sel select y <= a when \"00\", b when others".to_string(),
        ],
    });
    let verilog = VerilogGenerator::new().generate(&entity).unwrap();
    assert!(verilog.contains("// TODO: Convert VHDL 'with...select' statement:"));
    assert!(verilog.contains("with sel select"));
    let sv = SystemVerilogGenerator::new().generate(&entity).unwrap();
    assert!(sv.contains("// TODO: Convert VHDL 'with...select' to SystemVerilog case:"));
}

#[test]
fn test_case_header_dialects_differ() {
    let mut entity = Entity::new("fsm".to_string());
    entity.architecture = Some(Architecture {
        name: "rtl".to_string(),
        signals: vec![],
        processes: vec![Process {
            label: None,
            sensitivity_list: vec!["state".to_string()],
            body: "case state is\n    when others =>\n        y <= '0';\nend case;".to_string(),
        }],
        concurrent_statements: vec![],
    });
    let verilog = VerilogGenerator::new().generate(&entity).unwrap();
    assert!(verilog.contains("case (state)"));
    assert!(!verilog.contains("unique case"));
    let sv = SystemVerilogGenerator::new().generate(&entity).unwrap();
    assert!(sv.contains("unique case (state)"));
}

#[test]
fn test_error_messages() {
    assert_eq!(ParseError::Grammar.message(), "the source could not be parsed");
    assert_eq!(ParseError::Syntax.message(), "the source contains syntax errors");
    assert_eq!(ParseError::MissingEntityName.message(), "entity missing name");
    assert_eq!(
        ParseError::InvalidPortDirection("x".to_string()).message(),
        "invalid port direction"
    );
    assert_eq!(ParseError::MissingPortType.message(), "port declaration missing type");
    assert_eq!(ParseError::MissingGenericType.message(), "generic declaration missing type");
    assert_eq!(ParseError::UnresolvableRange.message(), "could not resolve range bound");
    assert_eq!(ParseError::NoArchitecture.message(), "no architecture found for entity");
}
