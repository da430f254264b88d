use rtl_transpiler::errors::ParseError;
use rtl_transpiler::ir::{PortDirection, VHDLType, VectorRange, VerilogGenerator};
use rtl_transpiler::parser::VHDLParser;

#[test]
fn test_parse_simple_entity() {
    let vhdl = r#"
        entity counter is
            port(
                clk    : in  std_logic;
                reset  : in  std_logic;
                count  : out std_logic_vector(7 downto 0)
            );
        end entity counter;
        "#;

    let parser = VHDLParser::new(vhdl.to_string());
    let entities = parser.parse_entities().unwrap();

    assert_eq!(entities.len(), 1);
    assert_eq!(entities[0].name, "counter");
    assert_eq!(entities[0].ports.len(), 3);

    assert_eq!(entities[0].ports[0].name, "clk");
    assert_eq!(entities[0].ports[0].direction, PortDirection::In);

    assert_eq!(entities[0].ports[2].name, "count");
    assert_eq!(entities[0].ports[2].direction, PortDirection::Out);
}

#[test]
fn test_parse_multiple_names() {
    let vhdl = r#"
        entity test is
            port(
                a, b, c : in std_logic;
                d : out std_logic
            );
        end entity;
        "#;

    let parser = VHDLParser::new(vhdl.to_string());
    let entities = parser.parse_entities().unwrap();

    assert_eq!(entities[0].ports.len(), 4);
    assert_eq!(entities[0].ports[0].name, "a");
    assert_eq!(entities[0].ports[1].name, "b");
    assert_eq!(entities[0].ports[2].name, "c");
}

#[test]
fn test_entity_without_port_clause() {
    let vhdl = "entity empty_one is\nend entity empty_one;\n";
    let parser = VHDLParser::new(vhdl.to_string());
    let entities = parser.parse_entities().unwrap();
    assert_eq!(entities.len(), 1);
    assert_eq!(entities[0].name, "empty_one");
    assert!(entities[0].ports.is_empty());
}

#[test]
fn test_invalid_port_direction_is_an_error() {
    let vhdl = "entity bad is\n    port(\n        x : sideways std_logic\n    );\nend entity;\n";
    let parser = VHDLParser::new(vhdl.to_string());
    match parser.parse_entities() {
        Err(ParseError::InvalidPortDirection(word)) => assert_eq!(word, "sideways"),
        other => panic!("expected an invalid-direction error, got {:?}", other),
    }
}

#[test]
fn test_bad_entity_is_dropped_when_another_lifts() {
    // a structural error is fatal to its own entity only
    let vhdl = "entity bad is\n    port(\n        x : sideways std_logic\n    );\nend entity bad;\n\nentity good is\n    port(\n        y : out std_logic\n    );\nend entity good;\n";
    let parser = VHDLParser::new(vhdl.to_string());
    let entities = parser.parse_entities().unwrap();
    assert_eq!(entities.len(), 1);
    assert_eq!(entities[0].name, "good");
    assert_eq!(entities[0].ports[0].name, "y");
}

#[test]
fn test_oversized_range_bound_is_an_error() {
    let vhdl =
        "entity wide is\n    port(\n        x : in std_logic_vector(99999999999 downto 0)\n    );\nend entity;\n";
    let parser = VHDLParser::new(vhdl.to_string());
    match parser.parse_entities() {
        Err(ParseError::UnresolvableRange) => {}
        other => panic!("expected a range error, got {:?}", other),
    }
}

#[test]
fn test_parse_type_forms() {
    let parser = VHDLParser::new(String::new());
    assert_eq!(parser.parse_type("std_logic").unwrap(), VHDLType::StdLogic);
    assert_eq!(parser.parse_type("STD_ULOGIC").unwrap(), VHDLType::StdLogic);
    assert_eq!(parser.parse_type("integer").unwrap(), VHDLType::Integer);
    assert_eq!(
        parser.parse_type("std_logic_vector(15 downto 8)").unwrap(),
        VHDLType::StdLogicVector(VectorRange {
            left: 15,
            right: 8,
            downto: true,
        })
    );
    assert_eq!(
        parser.parse_type("unsigned(0 to 7)").unwrap(),
        VHDLType::Unsigned(VectorRange {
            left: 0,
            right: 7,
            downto: false,
        })
    );
    assert_eq!(
        parser.parse_type("my_record_t").unwrap(),
        VHDLType::Custom("my_record_t".to_string())
    );
}

#[test]
fn test_parse_architecture_with_signals_and_process() {
    let vhdl = r#"
entity counter is
    port(
        clk   : in  std_logic;
        reset : in  std_logic;
        count : out std_logic_vector(7 downto 0)
    );
end entity counter;

architecture rtl of counter is
    signal count_int : unsigned(7 downto 0);
begin
    process(clk, reset)
    begin
        if reset = '1' then
            count_int <= (others => '0');
        elsif rising_edge(clk) then
            count_int <= count_int + 1;
        end if;
    end process;

    count <= std_logic_vector(count_int);
end architecture rtl;
"#;
    let parser = VHDLParser::new(vhdl.to_string());
    let entities = parser.parse_entities().unwrap();
    assert_eq!(entities.len(), 1);
    let arch = entities[0].architecture.as_ref().expect("architecture should bind");
    assert_eq!(arch.name, "rtl");
    assert_eq!(arch.signals.len(), 1);
    assert_eq!(arch.signals[0].name, "count_int");
    assert_eq!(arch.processes.len(), 1);
    assert_eq!(arch.processes[0].sensitivity_list, vec!["clk", "reset"]);
    assert_eq!(arch.concurrent_statements.len(), 1);

    // whole pipeline: lifted entity renders to a module
    let generator = VerilogGenerator::new();
    let verilog = generator.generate(&entities[0]).unwrap();
    println!("{}", verilog);
    assert!(verilog.contains("module counter"));
    assert!(verilog.contains("always @(posedge clk or posedge reset) begin"));
    assert!(verilog.contains("endmodule"));
}

#[test]
fn test_fsm_full_pipeline() {
    let vhdl = r#"
entity fsm is
    port(
        clk   : in  std_logic;
        reset : in  std_logic;
        sel   : in  std_logic_vector(1 downto 0);
        y     : out std_logic
    );
end entity fsm;

architecture rtl of fsm is
begin
    process(sel)
    begin
        case sel is
            when "00" =>
                y <= '0';
            when "01" =>
                y <= '1';
            when others =>
                y <= '0';
        end case;
    end process;
end architecture rtl;
"#;
    let parser = VHDLParser::new(vhdl.to_string());
    let entities = parser.parse_entities().unwrap();
    assert_eq!(entities.len(), 1);

    let verilog = VerilogGenerator::new().generate(&entities[0]).unwrap();
    println!("{}", verilog);
    assert!(verilog.contains("always @(*) begin"));
    assert!(verilog.contains("case (sel)"));
    assert!(verilog.contains("2'b00: begin"));
    assert!(verilog.contains("2'b01: begin"));
    assert!(verilog.contains("default: begin"));
    assert!(verilog.contains("y <= 1'b1;"));
    assert!(verilog.contains("endcase"));
}

#[test]
fn test_architecture_for_other_entity_is_not_bound() {
    let vhdl = r#"
entity alpha is
end entity alpha;

architecture rtl of beta is
begin
end architecture rtl;
"#;
    let parser = VHDLParser::new(vhdl.to_string());
    let entities = parser.parse_entities().unwrap();
    assert_eq!(entities.len(), 1);
    assert!(entities[0].architecture.is_none());

    match parser.parse_architecture("alpha") {
        Err(ParseError::NoArchitecture) => {}
        other => panic!("expected no architecture, got {:?}", other),
    }
}

#[test]
fn test_type_conversions() {
    let vhdl = r#"
    entity type_test is
        port(
            bit_sig       : in  bit;
            logic_sig     : in  std_logic;
            int_sig       : in  integer;
            natural_sig   : in  natural;
            vec_sig       : in  std_logic_vector(31 downto 0);
            signed_sig    : in  signed(15 downto 0);
            unsigned_sig  : in  unsigned(7 downto 0)
        );
    end entity type_test;
    "#;

    let parser = VHDLParser::new(vhdl.to_string());
    let entities = parser.parse_entities().unwrap();

    assert_eq!(entities.len(), 1);

    let generator = VerilogGenerator::new();
    let verilog = generator.generate(&entities[0]).unwrap();

    println!("Generated Verilog:\n{}", verilog);

    assert!(verilog.contains("input wire bit_sig"));
    assert!(verilog.contains("input wire logic_sig"));
    assert!(verilog.contains("input wire signed [31:0] int_sig"));
    assert!(verilog.contains("input wire [31:0] natural_sig"));
    assert!(verilog.contains("input wire [31:0] vec_sig"));
    assert!(verilog.contains("input wire signed [15:0] signed_sig"));
    assert!(verilog.contains("input wire [7:0] unsigned_sig"));
}

#[test]
fn test_labeled_process_and_concurrent_order() {
    let vhdl = r#"
entity duo is
end entity duo;

architecture rtl of duo is
begin
    main : process(clk)
    begin
        q <= d;
    end process;

    y <= a and b;
    z <= c or d;
end architecture rtl;
"#;
    let parser = VHDLParser::new(vhdl.to_string());
    let entities = parser.parse_entities().unwrap();
    let arch = entities[0].architecture.as_ref().unwrap();
    assert_eq!(arch.processes.len(), 1);
    assert_eq!(arch.processes[0].label.as_deref(), Some("main"));
    assert_eq!(arch.processes[0].body, "q <= d;");
    assert_eq!(arch.concurrent_statements, vec!["y <= a and b", "z <= c or d"]);
}
