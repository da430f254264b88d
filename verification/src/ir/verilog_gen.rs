//! The first target dialect: `wire`/`reg` declarations with promotion of
//! procedurally driven outputs, plain `always` blocks, plain `case` headers.
//! The algorithm itself lives in `gen`.

use vstd::prelude::*;

use crate::ir::gen::{collect_procedural_signals, gen_module_body, gen_module_header, Dialect,
    GenError, spec_generate};
use crate::ir::model::{Entity, spec_port_verilog};
use crate::text::{chars_to_string, push_range, push_str_chars, str_chars};

verus! {

/// The port-declaration block of the older, non-ANSI style: one
/// `direction type name;` line per port, in declaration order.
pub open spec fn spec_port_decls(e: crate::ir::model::EntityV, ind: Seq<char>, i: int)
    -> Seq<char>
    decreases e.ports.len() - i,
{
    if 0 <= i < e.ports.len() {
        ind + spec_port_verilog(e.ports[i]) + ";\n"@ + spec_port_decls(e, ind, i + 1)
    } else {
        Seq::empty()
    }
}

/// Renders entities in the first dialect.
#[derive(Debug, Clone)]
pub struct VerilogGenerator {
    indent: String,
}

impl View for VerilogGenerator {
    type V = Seq<char>;

    closed spec fn view(&self) -> Seq<char> {
        self.indent@
    }
}

impl VerilogGenerator {
    /// A generator with the default four-space indentation.
    pub fn new() -> (r: VerilogGenerator)
        ensures
            r@ == "    "@,
    {
        VerilogGenerator { indent: chars_to_string(&str_chars("    ")) }
    }

    /// A generator with the given indentation unit.
    pub fn with_indent(indent: String) -> (r: VerilogGenerator)
        ensures
            r@ == indent@,
    {
        VerilogGenerator { indent }
    }

    /// Renders one entity as a complete module. Never fails: untranslatable
    /// constructs degrade to commented passthrough, not errors.
    pub fn generate(&self, entity: &Entity) -> (r: Result<String, GenError>)
        ensures
            r is Ok,
            r->Ok_0@ == spec_generate(Dialect::Verilog, entity@, self@),
    {
        let ind = str_chars(self.indent.as_str());
        let names = collect_procedural_signals(entity);
        let mut out = gen_module_header(Dialect::Verilog, entity, &names, &ind);
        let body = gen_module_body(Dialect::Verilog, entity, &ind);
        push_range(&mut out, &body, 0, body.len());
        push_str_chars(&mut out, "endmodule\n");
        proof {
            assert(body@.subrange(0, body@.len() as int) =~= body@);
            assert(out@ =~= spec_generate(Dialect::Verilog, entity@, self@));
        }
        Ok(chars_to_string(&out))
    }

    /// The non-ANSI port-declaration block, separate from the module header.
    pub fn generate_port_declarations(&self, entity: &Entity) -> (r: Result<String, GenError>)
        ensures
            r is Ok,
            r->Ok_0@ == spec_port_decls(entity@, self@, 0),
    {
        let ind = str_chars(self.indent.as_str());
        let ghost ports = entity@.ports;
        let n: usize = entity.ports.len();
        let mut out: Vec<char> = Vec::new();
        let mut i: usize = 0;
        while i < n
            invariant
                n == ports.len(),
                ports == entity@.ports,
                ind@ == self@,
                i <= n,
                out@ + spec_port_decls(entity@, self@, i as int) == spec_port_decls(entity@,
                    self@, 0),
            decreases n - i,
        {
            let ghost pre = out@;
            proof {
                assert(entity@.ports[i as int] == entity.ports@[i as int]@);
            }
            push_range(&mut out, &ind, 0, ind.len());
            let line = entity.ports[i].to_verilog();
            push_str_chars(&mut out, line.as_str());
            push_str_chars(&mut out, ";\n");
            proof {
                assert(ind@.subrange(0, ind@.len() as int) =~= ind@);
                assert(pre + spec_port_decls(entity@, self@, i as int) =~= out@ + spec_port_decls(
                    entity@, self@, i + 1 as int));
            }
            i = i + 1;
        }
        proof {
            assert(spec_port_decls(entity@, self@, n as int) =~= Seq::<char>::empty());
            assert(out@ =~= spec_port_decls(entity@, self@, 0));
        }
        Ok(chars_to_string(&out))
    }
}

impl Default for VerilogGenerator {
    /// The same generator as `new`.
    fn default() -> (r: VerilogGenerator)
        ensures
            r@ == "    "@,
    {
        VerilogGenerator::new()
    }
}

} // verus!
