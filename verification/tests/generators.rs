use rtl_transpiler::ir::{Architecture, Entity, Port, PortDirection, Process, SystemVerilogGenerator,
    VHDLType, VectorRange, VerilogGenerator};

#[test]
fn test_generate_simple_module() {
    let mut entity = Entity::new("counter".to_string());
    entity.add_port(Port::new(
        "clk".to_string(),
        PortDirection::In,
        VHDLType::StdLogic,
    ));
    entity.add_port(Port::new(
        "reset".to_string(),
        PortDirection::In,
        VHDLType::StdLogic,
    ));
    entity.add_port(Port::new(
        "count".to_string(),
        PortDirection::Out,
        VHDLType::StdLogicVector(VectorRange {
            left: 7,
            right: 0,
            downto: true,
        }),
    ));

    let generator = VerilogGenerator::new();
    let verilog = generator.generate(&entity).unwrap();

    println!("Generated Verilog:\n{}", verilog);

    assert!(verilog.contains("module counter"));
    assert!(verilog.contains("input wire clk"));
    assert!(verilog.contains("input wire reset"));
    assert!(verilog.contains("output wire [7:0] count"));
    assert!(verilog.contains("endmodule"));
}

#[test]
fn test_generate_with_multiple_types() {
    let mut entity = Entity::new("test".to_string());
    entity.add_port(Port::new(
        "int_signal".to_string(),
        PortDirection::In,
        VHDLType::Integer,
    ));
    entity.add_port(Port::new(
        "bit_signal".to_string(),
        PortDirection::Out,
        VHDLType::Bit,
    ));

    let generator = VerilogGenerator::new();
    let verilog = generator.generate(&entity).unwrap();

    assert!(verilog.contains("input wire signed [31:0] int_signal"));
    assert!(verilog.contains("output wire bit_signal"));
}

#[test]
fn test_generate_simple_sv_module() {
    let mut entity = Entity::new("counter".to_string());
    entity.add_port(Port::new(
        "clk".to_string(),
        PortDirection::In,
        VHDLType::StdLogic,
    ));
    entity.add_port(Port::new(
        "reset".to_string(),
        PortDirection::In,
        VHDLType::StdLogic,
    ));
    entity.add_port(Port::new(
        "count".to_string(),
        PortDirection::Out,
        VHDLType::StdLogicVector(VectorRange {
            left: 7,
            right: 0,
            downto: true,
        }),
    ));

    let generator = SystemVerilogGenerator::new();
    let sv = generator.generate(&entity).unwrap();

    println!("Generated SystemVerilog:\n{}", sv);

    assert!(sv.contains("module counter"));
    assert!(sv.contains("input logic clk"));
    assert!(sv.contains("input logic reset"));
    assert!(sv.contains("output logic [7:0] count"));
    assert!(sv.contains("endmodule"));
}

#[test]
fn test_always_comb_generation() {
    let mut entity = Entity::new("mux".to_string());
    let arch = Architecture {
        name: "rtl".to_string(),
        signals: vec![],
        processes: vec![Process {
            label: None,
            sensitivity_list: vec!["a".to_string(), "b".to_string(), "sel".to_string()],
            body: "if sel = '0' then\n    y <= a;\nelse\n    y <= b;\nend if;".to_string(),
        }],
        concurrent_statements: vec![],
    };
    entity.architecture = Some(arch);

    let generator = SystemVerilogGenerator::new();
    let sv = generator.generate(&entity).unwrap();

    assert!(sv.contains("always_comb"));
}

#[test]
fn test_generation_is_deterministic() {
    let mut entity = Entity::new("counter".to_string());
    entity.add_port(Port::new(
        "clk".to_string(),
        PortDirection::In,
        VHDLType::StdLogic,
    ));
    entity.architecture = Some(Architecture {
        name: "rtl".to_string(),
        signals: vec![],
        processes: vec![Process {
            label: None,
            sensitivity_list: vec!["clk".to_string()],
            body: "count <= count + 1;".to_string(),
        }],
        concurrent_statements: vec!["y <= a and b".to_string()],
    });

    let generator = VerilogGenerator::new();
    let first = generator.generate(&entity).unwrap();
    let second = generator.generate(&entity).unwrap();
    assert_eq!(first, second);

    let sv = SystemVerilogGenerator::new();
    assert_eq!(sv.generate(&entity).unwrap(), sv.generate(&entity).unwrap());
}

#[test]
fn test_generate_operation_selects_dialect() {
    let mut entity = Entity::new("pick".to_string());
    entity.add_port(Port::new(
        "clk".to_string(),
        PortDirection::In,
        VHDLType::StdLogic,
    ));
    assert_eq!(
        rtl_transpiler::ir::gen::generate(&entity, rtl_transpiler::ir::gen::Dialect::Verilog)
            .unwrap(),
        VerilogGenerator::new().generate(&entity).unwrap()
    );
    assert_eq!(
        rtl_transpiler::ir::gen::generate(&entity, rtl_transpiler::ir::gen::Dialect::SystemVerilog)
            .unwrap(),
        SystemVerilogGenerator::new().generate(&entity).unwrap()
    );
}

#[test]
fn test_hex_literal_translation() {
    let mut entity = Entity::new("hexer".to_string());
    entity.architecture = Some(Architecture {
        name: "rtl".to_string(),
        signals: vec![],
        processes: vec![Process {
            label: None,
            sensitivity_list: vec!["clk".to_string()],
            body: "data <= x\"FF\";\nnibble <= x\"0\";".to_string(),
        }],
        concurrent_statements: vec![],
    });

    let generator = VerilogGenerator::new();
    let verilog = generator.generate(&entity).unwrap();
    assert!(verilog.contains("8'hFF"));
    assert!(verilog.contains("4'h0"));
}

#[test]
fn test_sequential_process_edges() {
    // sensitivity (clk, reset) with an active-high reset comparison
    let mut entity = Entity::new("seq".to_string());
    entity.architecture = Some(Architecture {
        name: "rtl".to_string(),
        signals: vec![],
        processes: vec![Process {
            label: None,
            sensitivity_list: vec!["clk".to_string(), "reset".to_string()],
            body: "if reset = '1' then\n    q <= '0';\nend if;".to_string(),
        }],
        concurrent_statements: vec![],
    });

    let generator = VerilogGenerator::new();
    let verilog = generator.generate(&entity).unwrap();
    assert!(verilog.contains("always @(posedge clk or posedge reset) begin"));

    let sv = SystemVerilogGenerator::new().generate(&entity).unwrap();
    assert!(sv.contains("always_ff @(posedge clk or posedge reset) begin"));
}

#[test]
fn test_conditional_concurrent_statement() {
    let mut entity = Entity::new("condsel".to_string());
    entity.architecture = Some(Architecture {
        name: "rtl".to_string(),
        signals: vec![],
        processes: vec![],
        concurrent_statements: vec!["y <= a when sel = '0' else b;".to_string()],
    });

    let generator = VerilogGenerator::new();
    let verilog = generator.generate(&entity).unwrap();
    assert!(verilog.contains("assign y = (sel == 1'b0) ? a : b;"));
    assert!(!verilog.contains(";;"));
}

#[test]
fn test_case_branches_close_once_each() {
    let body = "case state is\n    when \"00\" =>\n        y <= a;\n    when \"01\" =>\n        y <= b;\n    when others =>\n        y <= c;\nend case;";
    let mut entity = Entity::new("fsm".to_string());
    entity.architecture = Some(Architecture {
        name: "rtl".to_string(),
        signals: vec![],
        processes: vec![Process {
            label: None,
            sensitivity_list: vec!["state".to_string()],
            body: body.to_string(),
        }],
        concurrent_statements: vec![],
    });

    let generator = VerilogGenerator::new();
    let verilog = generator.generate(&entity).unwrap();
    println!("{}", verilog);
    assert!(verilog.contains("case (state)"));
    assert!(verilog.contains("2'b00: begin"));
    assert!(verilog.contains("2'b01: begin"));
    assert!(verilog.contains("default: begin"));
    assert!(verilog.contains("endcase"));
    // three branches with one statement each: exactly three closing `end`
    // lines between the case header and `endcase`, one per branch
    let case_start = verilog.find("case (state)").unwrap();
    let case_end = verilog.find("endcase").unwrap();
    let inside = &verilog[case_start..case_end];
    let branch_ends = inside
        .lines()
        .filter(|l| l.trim() == "end")
        .count();
    assert_eq!(branch_ends, 3);
}

#[test]
fn test_wire_to_reg_promotion() {
    let mut entity = Entity::new("reg_out".to_string());
    entity.add_port(Port::new(
        "clk".to_string(),
        PortDirection::In,
        VHDLType::StdLogic,
    ));
    entity.add_port(Port::new(
        "q".to_string(),
        PortDirection::Out,
        VHDLType::StdLogic,
    ));
    entity.architecture = Some(Architecture {
        name: "rtl".to_string(),
        signals: vec![],
        processes: vec![Process {
            label: None,
            sensitivity_list: vec!["clk".to_string()],
            body: "q <= d;".to_string(),
        }],
        concurrent_statements: vec![],
    });

    let generator = VerilogGenerator::new();
    let verilog = generator.generate(&entity).unwrap();
    assert!(verilog.contains("output reg q"));
    assert!(verilog.contains("input wire clk"));
}

#[test]
fn test_generate_port_declarations() {
    let mut entity = Entity::new("decls".to_string());
    entity.add_port(Port::new(
        "clk".to_string(),
        PortDirection::In,
        VHDLType::StdLogic,
    ));
    let generator = VerilogGenerator::new();
    let decls = generator.generate_port_declarations(&entity).unwrap();
    assert_eq!(decls, "    input wire clk;\n");
}
