//! The second target dialect: one unified declaration keyword (`logic`), a
//! clocked/combinational split spelled `always_ff` / `always_comb`, and
//! `unique case` headers. The algorithm itself lives in `gen`.

use vstd::prelude::*;

use crate::ir::gen::{collect_procedural_signals, gen_module_body, gen_module_header, Dialect,
    GenError, spec_generate};
use crate::ir::model::{Entity, PortDirection, VHDLType, VectorRange, spec_dir_keyword,
    spec_range_brackets, spec_type_sv};
use crate::text::{chars_to_string, push_str_chars, str_chars};

verus! {

impl PortDirection {
    /// The same keyword mapping as the first dialect; `Buffer` collapses to
    /// plain `output` here too.
    pub fn to_systemverilog(&self) -> (r: &str)
        ensures
            r@ == spec_dir_keyword(*self),
    {
        match self {
            PortDirection::In => "input",
            PortDirection::Out => "output",
            PortDirection::InOut => "inout",
            PortDirection::Buffer => "output",
        }
    }
}

impl VectorRange {
    /// The bracket form is the same canonical `[msb:lsb]` in both dialects.
    pub fn to_systemverilog(&self) -> (r: String)
        ensures
            r@ == spec_range_brackets(self@),
    {
        self.to_verilog()
    }
}

impl VHDLType {
    /// Renders the second dialect's declaration keyword and width.
    pub fn to_systemverilog(&self) -> (r: String)
        ensures
            r@ == spec_type_sv(self@),
    {
        let mut out: Vec<char> = Vec::new();
        match self {
            VHDLType::StdLogic => push_str_chars(&mut out, "logic"),
            VHDLType::StdLogicVector(range) => {
                push_str_chars(&mut out, "logic ");
                let b = range.to_systemverilog();
                push_str_chars(&mut out, b.as_str());
            }
            VHDLType::Integer => push_str_chars(&mut out, "logic signed [31:0]"),
            VHDLType::Natural => push_str_chars(&mut out, "logic [31:0]"),
            VHDLType::Positive => push_str_chars(&mut out, "logic [31:0]"),
            VHDLType::Boolean => push_str_chars(&mut out, "logic"),
            VHDLType::Bit => push_str_chars(&mut out, "logic"),
            VHDLType::BitVector(range) => {
                push_str_chars(&mut out, "logic ");
                let b = range.to_systemverilog();
                push_str_chars(&mut out, b.as_str());
            }
            VHDLType::Signed(range) => {
                push_str_chars(&mut out, "logic signed ");
                let b = range.to_systemverilog();
                push_str_chars(&mut out, b.as_str());
            }
            VHDLType::Unsigned(range) => {
                push_str_chars(&mut out, "logic ");
                let b = range.to_systemverilog();
                push_str_chars(&mut out, b.as_str());
            }
            VHDLType::Custom(name) => {
                push_str_chars(&mut out, "logic /* ");
                push_str_chars(&mut out, name.as_str());
                push_str_chars(&mut out, " */");
            }
        }
        proof {
            assert(out@ =~= spec_type_sv(self@));
        }
        chars_to_string(&out)
    }
}

/// Renders entities in the second dialect.
#[derive(Debug, Clone)]
pub struct SystemVerilogGenerator {
    indent: String,
}

impl View for SystemVerilogGenerator {
    type V = Seq<char>;

    closed spec fn view(&self) -> Seq<char> {
        self.indent@
    }
}

impl SystemVerilogGenerator {
    /// A generator with the default four-space indentation.
    pub fn new() -> (r: SystemVerilogGenerator)
        ensures
            r@ == "    "@,
    {
        SystemVerilogGenerator { indent: chars_to_string(&str_chars("    ")) }
    }

    /// A generator with the given indentation unit.
    pub fn with_indent(indent: String) -> (r: SystemVerilogGenerator)
        ensures
            r@ == indent@,
    {
        SystemVerilogGenerator { indent }
    }

    /// Renders one entity as a complete module. Never fails: untranslatable
    /// constructs degrade to commented passthrough, not errors.
    pub fn generate(&self, entity: &Entity) -> (r: Result<String, GenError>)
        ensures
            r is Ok,
            r->Ok_0@ == spec_generate(Dialect::SystemVerilog, entity@, self@),
    {
        let ind = str_chars(self.indent.as_str());
        let names = collect_procedural_signals(entity);
        let mut out = gen_module_header(Dialect::SystemVerilog, entity, &names, &ind);
        let body = gen_module_body(Dialect::SystemVerilog, entity, &ind);
        crate::text::push_range(&mut out, &body, 0, body.len());
        push_str_chars(&mut out, "endmodule\n");
        proof {
            assert(body@.subrange(0, body@.len() as int) =~= body@);
            assert(out@ =~= spec_generate(Dialect::SystemVerilog, entity@, self@));
        }
        Ok(chars_to_string(&out))
    }
}

impl Default for SystemVerilogGenerator {
    /// The same generator as `new`.
    fn default() -> (r: SystemVerilogGenerator)
        ensures
            r@ == "    "@,
    {
        SystemVerilogGenerator::new()
    }
}

} // verus!
