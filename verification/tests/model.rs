use rtl_transpiler::ir::{Port, PortDirection, VHDLType, VectorRange};

#[test]
fn test_port_direction_conversion() {
    assert_eq!(PortDirection::from_vhdl("in"), Some(PortDirection::In));
    assert_eq!(PortDirection::In.to_verilog(), "input");
}

#[test]
fn test_vector_range_conversion() {
    let range = VectorRange {
        left: 7,
        right: 0,
        downto: true,
    };
    assert_eq!(range.to_verilog(), "[7:0]");
}

#[test]
fn test_vhdl_type_conversion() {
    let std_logic = VHDLType::StdLogic;
    assert_eq!(std_logic.to_verilog(), "wire");

    let vector = VHDLType::StdLogicVector(VectorRange {
        left: 7,
        right: 0,
        downto: true,
    });
    assert_eq!(vector.to_verilog(), "wire [7:0]");
}

#[test]
fn test_port_to_verilog() {
    let port = Port::new(
        "clk".to_string(),
        PortDirection::In,
        VHDLType::StdLogic,
    );
    assert_eq!(port.to_verilog(), "input wire clk");

    let port_vector = Port::new(
        "data".to_string(),
        PortDirection::Out,
        VHDLType::StdLogicVector(VectorRange {
            left: 7,
            right: 0,
            downto: true,
        }),
    );
    assert_eq!(port_vector.to_verilog(), "output wire [7:0] data");
}

#[test]
fn test_range_orientation_same_brackets() {
    let descending = VectorRange {
        left: 7,
        right: 0,
        downto: true,
    };
    let ascending = VectorRange {
        left: 0,
        right: 7,
        downto: false,
    };
    assert_eq!(descending.to_verilog(), "[7:0]");
    assert_eq!(ascending.to_verilog(), "[7:0]");
    assert_eq!(ascending.to_systemverilog(), "[7:0]");
}

#[test]
fn test_buffer_direction_renders_output() {
    assert_eq!(PortDirection::Buffer.to_verilog(), "output");
    assert_eq!(PortDirection::Buffer.to_systemverilog(), "output");
}

#[test]
fn test_direction_keyword_case_insensitive() {
    assert_eq!(PortDirection::from_vhdl("OUT"), Some(PortDirection::Out));
    assert_eq!(PortDirection::from_vhdl("Buffer"), Some(PortDirection::Buffer));
    assert_eq!(PortDirection::from_vhdl("inout"), Some(PortDirection::InOut));
    assert_eq!(PortDirection::from_vhdl("downto"), None);
}

#[test]
fn test_negative_range_bounds_render() {
    let range = VectorRange {
        left: -3,
        right: 0,
        downto: true,
    };
    assert_eq!(range.to_verilog(), "[-3:0]");
}
