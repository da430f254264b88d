//! The IR data model. Every type owns its data by value; nothing refers back
//! into any syntax tree, so a lifted entity outlives the text it came from.

use vstd::prelude::*;

use crate::text::{int_dec, lower_seq, to_lower, str_chars, seq_eq, chars_to_string,
    push_str_chars, i32_dec_chars};

verus! {

/// The mode of a port.
#[derive(Debug, Clone, Copy, PartialEq, Eq)]
pub enum PortDirection {
    In,
    Out,
    InOut,
    Buffer,
}

/// The bounds of a vector type as declared in the source: `left` and `right`
/// bound, and whether the declaration ran most-significant-bit first.
#[derive(Debug, Clone, Copy, PartialEq, Eq)]
pub struct VectorRange {
    pub left: i32,
    pub right: i32,
    pub downto: bool,
}

/// The abstract type of a port or signal.
#[derive(Debug, Clone, PartialEq, Eq)]
pub enum VHDLType {
    StdLogic,
    StdLogicVector(VectorRange),
    Integer,
    Natural,
    Positive,
    Boolean,
    Bit,
    BitVector(VectorRange),
    Signed(VectorRange),
    Unsigned(VectorRange),
    Custom(String),
}

#[derive(Debug, Clone)]
pub struct Port {
    pub name: String,
    pub direction: PortDirection,
    pub port_type: VHDLType,
}

#[derive(Debug, Clone)]
pub struct Generic {
    pub name: String,
    pub generic_type: String,
    pub default_value: Option<String>,
}

#[derive(Debug, Clone)]
pub struct Signal {
    pub name: String,
    pub signal_type: VHDLType,
}

#[derive(Debug, Clone)]
pub struct Process {
    pub label: Option<String>,
    pub sensitivity_list: Vec<String>,
    pub body: String,
}

#[derive(Debug, Clone)]
pub struct Architecture {
    pub name: String,
    pub signals: Vec<Signal>,
    pub processes: Vec<Process>,
    pub concurrent_statements: Vec<String>,
}

#[derive(Debug, Clone)]
pub struct Entity {
    pub name: String,
    pub ports: Vec<Port>,
    pub generics: Vec<Generic>,
    pub architecture: Option<Architecture>,
}

// ---------------------------------------------------------------------------
// Mathematical views of the IR
// ---------------------------------------------------------------------------

pub struct RangeV {
    pub left: int,
    pub right: int,
    pub downto: bool,
}

pub enum TypeV {
    StdLogic,
    StdLogicVector(RangeV),
    Integer,
    Natural,
    Positive,
    Boolean,
    Bit,
    BitVector(RangeV),
    Signed(RangeV),
    Unsigned(RangeV),
    Custom(Seq<char>),
}

pub struct PortV {
    pub name: Seq<char>,
    pub direction: PortDirection,
    pub typ: TypeV,
}

pub struct GenericV {
    pub name: Seq<char>,
    pub generic_type: Seq<char>,
    pub default_value: Option<Seq<char>>,
}

pub struct SignalV {
    pub name: Seq<char>,
    pub typ: TypeV,
}

pub struct ProcessV {
    pub label: Option<Seq<char>>,
    pub sensitivity_list: Seq<Seq<char>>,
    pub body: Seq<char>,
}

pub struct ArchV {
    pub name: Seq<char>,
    pub signals: Seq<SignalV>,
    pub processes: Seq<ProcessV>,
    pub concurrent_statements: Seq<Seq<char>>,
}

pub struct EntityV {
    pub name: Seq<char>,
    pub ports: Seq<PortV>,
    pub generics: Seq<GenericV>,
    pub architecture: Option<ArchV>,
}

impl View for VectorRange {
    type V = RangeV;

    open spec fn view(&self) -> RangeV {
        RangeV { left: self.left as int, right: self.right as int, downto: self.downto }
    }
}

impl View for VHDLType {
    type V = TypeV;

    open spec fn view(&self) -> TypeV {
        match self {
            VHDLType::StdLogic => TypeV::StdLogic,
            VHDLType::StdLogicVector(r) => TypeV::StdLogicVector(r@),
            VHDLType::Integer => TypeV::Integer,
            VHDLType::Natural => TypeV::Natural,
            VHDLType::Positive => TypeV::Positive,
            VHDLType::Boolean => TypeV::Boolean,
            VHDLType::Bit => TypeV::Bit,
            VHDLType::BitVector(r) => TypeV::BitVector(r@),
            VHDLType::Signed(r) => TypeV::Signed(r@),
            VHDLType::Unsigned(r) => TypeV::Unsigned(r@),
            VHDLType::Custom(n) => TypeV::Custom(n@),
        }
    }
}

impl View for Port {
    type V = PortV;

    open spec fn view(&self) -> PortV {
        PortV { name: self.name@, direction: self.direction, typ: self.port_type@ }
    }
}

impl View for Generic {
    type V = GenericV;

    open spec fn view(&self) -> GenericV {
        GenericV {
            name: self.name@,
            generic_type: self.generic_type@,
            default_value: match &self.default_value {
                Some(v) => Some(v@),
                None => None,
            },
        }
    }
}

impl View for Signal {
    type V = SignalV;

    open spec fn view(&self) -> SignalV {
        SignalV { name: self.name@, typ: self.signal_type@ }
    }
}

impl View for Process {
    type V = ProcessV;

    open spec fn view(&self) -> ProcessV {
        ProcessV {
            label: match &self.label {
                Some(l) => Some(l@),
                None => None,
            },
            sensitivity_list: self.sensitivity_list@.map_values(|s: String| s@),
            body: self.body@,
        }
    }
}

impl View for Architecture {
    type V = ArchV;

    open spec fn view(&self) -> ArchV {
        ArchV {
            name: self.name@,
            signals: self.signals@.map_values(|s: Signal| s@),
            processes: self.processes@.map_values(|p: Process| p@),
            concurrent_statements: self.concurrent_statements@.map_values(|s: String| s@),
        }
    }
}

impl View for Entity {
    type V = EntityV;

    open spec fn view(&self) -> EntityV {
        EntityV {
            name: self.name@,
            ports: self.ports@.map_values(|p: Port| p@),
            generics: self.generics@.map_values(|g: Generic| g@),
            architecture: match &self.architecture {
                Some(a) => Some(a@),
                None => None,
            },
        }
    }
}

// ---------------------------------------------------------------------------
// Rendering rules shared by both dialects
// ---------------------------------------------------------------------------

/// The direction keyword of the first target dialect. `Buffer` deliberately
/// collapses to plain `output`: the target language has no
/// output-with-readback notion.
pub open spec fn spec_dir_keyword(d: PortDirection) -> Seq<char> {
    match d {
        PortDirection::In => "input"@,
        PortDirection::Out => "output"@,
        PortDirection::InOut => "inout"@,
        PortDirection::Buffer => "output"@,
    }
}

/// The most significant bound of a range: the left bound of a descending
/// declaration, the right bound of an ascending one.
pub open spec fn spec_range_msb(r: RangeV) -> int {
    if r.downto {
        r.left
    } else {
        r.right
    }
}

pub open spec fn spec_range_lsb(r: RangeV) -> int {
    if r.downto {
        r.right
    } else {
        r.left
    }
}

/// The bracket form of a range is always `[msb:lsb]`, whichever way the source
/// declared it, so both orientations of the same physical span render alike.
pub open spec fn spec_range_brackets(r: RangeV) -> Seq<char> {
    seq!['['] + int_dec(spec_range_msb(r)) + seq![':'] + int_dec(spec_range_lsb(r)) + seq![']']
}

/// The type rendering of the first dialect, on the `wire` keyword.
pub open spec fn spec_type_verilog(t: TypeV) -> Seq<char> {
    match t {
        TypeV::StdLogic => "wire"@,
        TypeV::StdLogicVector(r) => "wire "@ + spec_range_brackets(r),
        TypeV::Integer => "wire signed [31:0]"@,
        TypeV::Natural => "wire [31:0]"@,
        TypeV::Positive => "wire [31:0]"@,
        TypeV::Boolean => "wire"@,
        TypeV::Bit => "wire"@,
        TypeV::BitVector(r) => "wire "@ + spec_range_brackets(r),
        TypeV::Signed(r) => "wire signed "@ + spec_range_brackets(r),
        TypeV::Unsigned(r) => "wire "@ + spec_range_brackets(r),
        TypeV::Custom(name) => "wire /* "@ + name + " */"@,
    }
}

/// The type rendering of the second dialect, on the unified `logic` keyword,
/// which covers both continuously driven and procedurally driven signals.
pub open spec fn spec_type_sv(t: TypeV) -> Seq<char> {
    match t {
        TypeV::StdLogic => "logic"@,
        TypeV::StdLogicVector(r) => "logic "@ + spec_range_brackets(r),
        TypeV::Integer => "logic signed [31:0]"@,
        TypeV::Natural => "logic [31:0]"@,
        TypeV::Positive => "logic [31:0]"@,
        TypeV::Boolean => "logic"@,
        TypeV::Bit => "logic"@,
        TypeV::BitVector(r) => "logic "@ + spec_range_brackets(r),
        TypeV::Signed(r) => "logic signed "@ + spec_range_brackets(r),
        TypeV::Unsigned(r) => "logic "@ + spec_range_brackets(r),
        TypeV::Custom(name) => "logic /* "@ + name + " */"@,
    }
}

/// One port as the first dialect writes it: direction, type, name.
pub open spec fn spec_port_verilog(p: PortV) -> Seq<char> {
    spec_dir_keyword(p.direction) + seq![' '] + spec_type_verilog(p.typ) + seq![' '] + p.name
}

/// The direction keyword a mode keyword of the source denotes, read
/// case-insensitively; `None` when the keyword is not a mode.
pub open spec fn spec_dir_from(s: Seq<char>) -> Option<PortDirection> {
    if lower_seq(s) == "in"@ {
        Some(PortDirection::In)
    } else if lower_seq(s) == "out"@ {
        Some(PortDirection::Out)
    } else if lower_seq(s) == "inout"@ {
        Some(PortDirection::InOut)
    } else if lower_seq(s) == "buffer"@ {
        Some(PortDirection::Buffer)
    } else {
        None
    }
}

impl PortDirection {
    /// Reads a source mode keyword, case-insensitively.
    pub fn from_vhdl(s: &str) -> (r: Option<PortDirection>)
        ensures
            r == spec_dir_from(s@),
    {
        let cs = str_chars(s);
        let l = to_lower(&cs);
        if seq_eq(&l, &str_chars("in")) {
            Some(PortDirection::In)
        } else if seq_eq(&l, &str_chars("out")) {
            Some(PortDirection::Out)
        } else if seq_eq(&l, &str_chars("inout")) {
            Some(PortDirection::InOut)
        } else if seq_eq(&l, &str_chars("buffer")) {
            Some(PortDirection::Buffer)
        } else {
            None
        }
    }

    pub fn to_verilog(&self) -> (r: &str)
        ensures
            r@ == spec_dir_keyword(*self),
    {
        match self {
            PortDirection::In => "input",
            PortDirection::Out => "output",
            PortDirection::InOut => "inout",
            PortDirection::Buffer => "output",
        }
    }
}

impl VectorRange {
    /// Renders the canonical `[msb:lsb]` bracket form.
    pub fn to_verilog(&self) -> (r: String)
        ensures
            r@ == spec_range_brackets(self@),
    {
        let mut out: Vec<char> = Vec::new();
        out.push('[');
        let msb = if self.downto {
            self.left
        } else {
            self.right
        };
        let lsb = if self.downto {
            self.right
        } else {
            self.left
        };
        let msb_chars = i32_dec_chars(msb);
        let mut k: usize = 0;
        while k < msb_chars.len()
            invariant
                k <= msb_chars@.len(),
                out@ == seq!['['] + msb_chars@.subrange(0, k as int),
            decreases msb_chars@.len() - k,
        {
            out.push(msb_chars[k]);
            assert(out@ =~= seq!['['] + msb_chars@.subrange(0, k + 1 as int));
            k = k + 1;
        }
        assert(out@ =~= seq!['['] + msb_chars@);
        out.push(':');
        let ghost mid = out@;
        let lsb_chars = i32_dec_chars(lsb);
        let mut k2: usize = 0;
        while k2 < lsb_chars.len()
            invariant
                k2 <= lsb_chars@.len(),
                out@ == mid + lsb_chars@.subrange(0, k2 as int),
            decreases lsb_chars@.len() - k2,
        {
            out.push(lsb_chars[k2]);
            assert(out@ =~= mid + lsb_chars@.subrange(0, k2 + 1 as int));
            k2 = k2 + 1;
        }
        assert(out@ =~= mid + lsb_chars@);
        out.push(']');
        assert(out@ =~= spec_range_brackets(self@));
        chars_to_string(&out)
    }
}

impl VHDLType {
    /// Renders the first dialect's declaration keyword and width for this type.
    pub fn to_verilog(&self) -> (r: String)
        ensures
            r@ == spec_type_verilog(self@),
    {
        let mut out: Vec<char> = Vec::new();
        match self {
            VHDLType::StdLogic => push_str_chars(&mut out, "wire"),
            VHDLType::StdLogicVector(range) => {
                push_str_chars(&mut out, "wire ");
                push_range_brackets(&mut out, range);
            }
            VHDLType::Integer => push_str_chars(&mut out, "wire signed [31:0]"),
            VHDLType::Natural => push_str_chars(&mut out, "wire [31:0]"),
            VHDLType::Positive => push_str_chars(&mut out, "wire [31:0]"),
            VHDLType::Boolean => push_str_chars(&mut out, "wire"),
            VHDLType::Bit => push_str_chars(&mut out, "wire"),
            VHDLType::BitVector(range) => {
                push_str_chars(&mut out, "wire ");
                push_range_brackets(&mut out, range);
            }
            VHDLType::Signed(range) => {
                push_str_chars(&mut out, "wire signed ");
                push_range_brackets(&mut out, range);
            }
            VHDLType::Unsigned(range) => {
                push_str_chars(&mut out, "wire ");
                push_range_brackets(&mut out, range);
            }
            VHDLType::Custom(name) => {
                push_str_chars(&mut out, "wire /* ");
                push_str_chars(&mut out, name.as_str());
                push_str_chars(&mut out, " */");
            }
        }
        proof {
            assert(out@ =~= spec_type_verilog(self@));
        }
        chars_to_string(&out)
    }
}

/// Appends the bracket form of `range` to `out`.
pub fn push_range_brackets(out: &mut Vec<char>, range: &VectorRange)
    ensures
        final(out)@ == old(out)@ + spec_range_brackets(range@),
{
    let s = range.to_verilog();
    push_str_chars(out, s.as_str());
}

impl Port {
    pub fn new(name: String, direction: PortDirection, port_type: VHDLType) -> (r: Port)
        ensures
            r@.name == name@,
            r@.direction == direction,
            r@.typ == port_type@,
    {
        Port { name, direction, port_type }
    }

    /// Renders `direction type name`, as the first dialect declares one port.
    pub fn to_verilog(&self) -> (r: String)
        ensures
            r@ == spec_port_verilog(self@),
    {
        let mut out: Vec<char> = Vec::new();
        push_str_chars(&mut out, self.direction.to_verilog());
        out.push(' ');
        let t = self.port_type.to_verilog();
        push_str_chars(&mut out, t.as_str());
        out.push(' ');
        push_str_chars(&mut out, self.name.as_str());
        proof {
            assert(out@ =~= spec_port_verilog(self@));
        }
        chars_to_string(&out)
    }
}

impl Entity {
    /// A fresh entity with the given name and nothing else.
    pub fn new(name: String) -> (r: Entity)
        ensures
            r@.name == name@,
            r@.ports =~= Seq::<PortV>::empty(),
            r@.generics =~= Seq::<GenericV>::empty(),
            r@.architecture is None,
    {
        Entity { name, ports: Vec::new(), generics: Vec::new(), architecture: None }
    }

    /// Appends one port; the order of earlier ports is kept.
    pub fn add_port(&mut self, port: Port)
        ensures
            final(self)@.ports =~= old(self)@.ports.push(port@),
            final(self)@.name == old(self)@.name,
            final(self)@.generics == old(self)@.generics,
            final(self)@.architecture == old(self)@.architecture,
    {
        self.ports.push(port);
    }

    /// Appends one generic; the order of earlier generics is kept.
    pub fn add_generic(&mut self, generic: Generic)
        ensures
            final(self)@.generics =~= old(self)@.generics.push(generic@),
            final(self)@.name == old(self)@.name,
            final(self)@.ports == old(self)@.ports,
            final(self)@.architecture == old(self)@.architecture,
    {
        self.generics.push(generic);
    }
}

} // verus!
