//! The register-definition tree that the parser builds, the validator
//! checks and the generator reads.
use crate::layout::RegWidth;
use vstd::prelude::*;

verus! {

/// A byte range `[lo, hi)` of the specification text.
#[derive(Clone, Copy, Debug, PartialEq, Eq, Structural)]
pub struct Span {
    pub lo: usize,
    pub hi: usize,
}

/// Access mode of a field.
#[derive(Clone, Copy, Debug, PartialEq, Eq, Structural)]
pub enum Access {
    ReadWrite,
    ReadOnly,
    WriteOnly,
}

impl Access {
    /// Read-write or read-only: the snapshot gets an accessor.
    pub open spec fn spec_readable(self) -> bool {
        !(self is WriteOnly)
    }

    /// Read-write or write-only: the mutator gets a setter.
    pub open spec fn spec_writable(self) -> bool {
        !(self is ReadOnly)
    }

    pub fn readable(&self) -> (r: bool)
        ensures
            r == self.spec_readable(),
    {
        !matches!(self, Access::WriteOnly)
    }

    pub fn writable(&self) -> (r: bool)
        ensures
            r == self.spec_writable(),
    {
        !matches!(self, Access::ReadOnly)
    }
}

/// One named code of an enumerated field.
#[derive(Clone, Debug)]
pub struct Variant {
    pub code: u32,
    pub name: Vec<u8>,
    pub span: Span,
}

/// A named bit range of a register. The range is written `first..last` in
/// either order (`first == last` for one bit); a field array of `count`
/// elements splits the range into `count` equal parts.
#[derive(Clone, Debug)]
pub struct Field {
    pub name: Vec<u8>,
    pub span: Span,
    pub first: u32,
    pub last: u32,
    pub count: u32,
    pub is_array: bool,
    pub access: Access,
    pub variants: Vec<Variant>,
}

impl Field {
    pub open spec fn spec_low(self) -> u32 {
        if self.first <= self.last {
            self.first
        } else {
            self.last
        }
    }

    pub open spec fn spec_high(self) -> u32 {
        if self.first <= self.last {
            self.last
        } else {
            self.first
        }
    }

    /// Number of bits the whole field (all elements) covers.
    pub open spec fn spec_span_bits(self) -> nat {
        (self.spec_high() - self.spec_low() + 1) as nat
    }

    /// Width of one element.
    pub open spec fn spec_elem_width(self) -> nat {
        if self.count == 0 {
            self.spec_span_bits()
        } else {
            self.spec_span_bits() / (self.count as nat)
        }
    }

    pub fn low_bit(&self) -> (r: u32)
        ensures
            r == self.spec_low(),
    {
        if self.first <= self.last {
            self.first
        } else {
            self.last
        }
    }

    pub fn high_bit(&self) -> (r: u32)
        ensures
            r == self.spec_high(),
    {
        if self.first <= self.last {
            self.last
        } else {
            self.first
        }
    }

    pub fn span_bits(&self) -> (r: u64)
        ensures
            r == self.spec_span_bits(),
    {
        (self.high_bit() - self.low_bit()) as u64 + 1
    }

    pub fn elem_width(&self) -> (r: u64)
        ensures
            r == self.spec_elem_width(),
    {
        if self.count == 0 {
            self.span_bits()
        } else {
            self.span_bits() / (self.count as u64)
        }
    }

    /// The field is enumerated.
    pub open spec fn spec_is_enum(self) -> bool {
        self.variants@.len() > 0
    }
}

/// What a register entry is: a word of a declared width with its fields,
/// or a group of sub-registers repeated as a unit.
#[derive(Debug)]
pub enum RegType {
    Prim(u32, Vec<Field>),
    Group(Vec<Reg>),
}

/// An entry of a register block: a register, a register array
/// (`is_array`, `count` words), or a group repeated `count` times.
#[derive(Debug)]
pub struct Reg {
    pub name: Vec<u8>,
    pub span: Span,
    pub offset: u32,
    pub count: u32,
    pub is_array: bool,
    pub ty: RegType,
}

/// A named collection of registers sharing one base address.
#[derive(Debug)]
pub struct RegBlock {
    pub name: Vec<u8>,
    pub span: Span,
    pub entries: Vec<Reg>,
}

/// A span that lies within a text of `len` bytes.
pub open spec fn span_in(s: Span, len: nat) -> bool {
    s.lo <= s.hi <= len
}

/// The spans of a field and of its variants lie within the text.
pub open spec fn field_spans_in(f: Field, len: nat) -> bool {
    span_in(f.span, len) && forall|i: int| 0 <= i < f.variants@.len() ==> span_in(#[trigger] f.variants@[i].span, len)
}

/// The spans of an entry, of its fields, and of its sub-entries lie
/// within the text.
pub open spec fn reg_spans_in(r: Reg, len: nat) -> bool
    decreases r,
{
    &&& span_in(r.span, len)
    &&& match r.ty {
        RegType::Prim(_, fs) => forall|i: int| 0 <= i < fs@.len() ==> field_spans_in(#[trigger] fs@[i], len),
        RegType::Group(regs) => forall|i: int| 0 <= i < regs@.len() ==> reg_spans_in(#[trigger] regs@[i], len),
    }
}

/// Bytes taken by one word of a register `width` bits wide.
pub open spec fn word_bytes(width: u32) -> int {
    width as int / 8
}

/// Bytes taken by a register array of `count` words of `width` bits.
pub open spec fn prim_size(width: u32, count: u32) -> int {
    word_bytes(width) * count
}

/// End (offset plus size) of a sub-register of a group; a nested group
/// counts as empty, being rejected on its own.
pub open spec fn inner_end(r: Reg) -> int {
    match r.ty {
        RegType::Prim(w, _) => r.offset + prim_size(w, r.count),
        RegType::Group(_) => r.offset as int,
    }
}

/// Size of one element of a group: the furthest end of its sub-registers.
pub open spec fn group_stride(regs: Seq<Reg>) -> int
    decreases regs.len(),
{
    if regs.len() == 0 {
        0
    } else {
        let rest = group_stride(regs.drop_last());
        let e = inner_end(regs.last());
        if e > rest {
            e
        } else {
            rest
        }
    }
}

/// Bytes an entry of a block takes.
pub open spec fn entry_size(r: Reg) -> int {
    match r.ty {
        RegType::Prim(w, _) => prim_size(w, r.count),
        RegType::Group(regs) => group_stride(regs@) * r.count,
    }
}

/// The primitive storage type of a register, when it is a word of a
/// supported width.
pub fn reg_primitive_type_name(reg: &Reg) -> (r: Option<&'static str>)
    ensures
        r matches Some(n) ==> (reg.ty matches RegType::Prim(w, _) && RegWidth::from_bits_spec(w)
            matches Some(rw) && n@ == crate::layout::primitive_name(rw)),
        r is None ==> (reg.ty is Group || RegWidth::from_bits_spec(reg.ty->Prim_0) is None),
{
    match &reg.ty {
        RegType::Prim(w, _) => match RegWidth::from_bits(*w as u64) {
            Some(rw) => Some(crate::layout::primitive_type_name(rw)),
            None => None,
        },
        RegType::Group(_) => None,
    }
}

} // verus!
