//! The accessor code generator: a validated register block to Rust source.
//!
//! For every register word the output holds a mutator binding
//! (`<path>_Update`, bound to the register's address, with a raw `set` and a
//! read-modify-write setter per writable field) and a snapshot binding
//! (`<path>_Get`, one volatile read, with a pure accessor per readable
//! field); enumerated fields get a closed enum with a partial decode.
//! The bindings reach the hardware through `mmio::read` and `mmio::write`,
//! which the crate that includes the text provides.
//!
//! Each setter returns the binding so that setters chain, and each performs
//! its own read-modify-write: a chain of setters is that many reads and
//! writes, not one combined write, and nothing keeps another context (an
//! interrupt handler) from writing the register between them. A register
//! whose fields are all write-only is never read: its setters write the
//! field with the other bits zero.
use crate::model::{group_stride, Field, Reg, RegBlock, RegType, Variant};
use crate::diag::Diagnostic;
use crate::parse::{block_is, block_syn, parsed};
use crate::validate::{block_valid, entry_overlaps_reported};
use vstd::prelude::*;
use vstd::string::StringSliceAdditionalSpecFns;

verus! {

/// The bytes of a literal piece of output.
#[verifier::opaque]
pub open spec fn lit(s: &str) -> Seq<u8> {
    s.spec_bytes()
}

/// Decimal digits of `n`.
pub open spec fn dec(n: nat) -> Seq<u8>
    decreases n,
{
    if n < 10 {
        seq![(48 + n) as u8]
    } else {
        dec(n / 10) + seq![(48 + n % 10) as u8]
    }
}

/// Appends a literal piece.
fn put(out: &mut Vec<u8>, s: &str)
    ensures
        final(out)@ == old(out)@ + lit(s),
{
    let b = s.as_bytes();
    proof {
        reveal(lit);
    }
    let mut i: usize = 0;
    while i < b.len()
        invariant
            0 <= i <= b@.len(),
            b@ == lit(s),
            out@ == old(out)@ + b@.subrange(0, i as int),
        decreases b@.len() - i,
    {
        out.push(b[i]);
        proof {
            assert(out@ =~= old(out)@ + b@.subrange(0, i as int + 1));
        }
        i = i + 1;
    }
    proof {
        assert(b@.subrange(0, b@.len() as int) =~= b@);
    }
}

/// Appends a name.
fn put_bytes(out: &mut Vec<u8>, s: &Vec<u8>)
    ensures
        final(out)@ == old(out)@ + s@,
{
    let mut i: usize = 0;
    while i < s.len()
        invariant
            0 <= i <= s@.len(),
            out@ == old(out)@ + s@.subrange(0, i as int),
        decreases s@.len() - i,
    {
        out.push(s[i]);
        proof {
            assert(out@ =~= old(out)@ + s@.subrange(0, i as int + 1));
        }
        i = i + 1;
    }
    proof {
        assert(s@.subrange(0, s@.len() as int) =~= s@);
    }
}

/// Appends `n` in decimal.
fn put_dec(out: &mut Vec<u8>, n: u128)
    ensures
        final(out)@ == old(out)@ + dec(n as nat),
    decreases n,
{
    if n >= 10 {
        put_dec(out, n / 10);
    }
    out.push((48 + n % 10) as u8);
    proof {
        assert(out@ =~= old(out)@ + dec(n as nat));
    }
}

/// The primitive type of a register word of `w` bits.
pub open spec fn prim_ty(w: u32) -> Seq<u8> {
    if w == 8 {
        lit("u8")
    } else if w == 16 {
        lit("u16")
    } else {
        lit("u32")
    }
}

/// The name of an item one level below `q`: `q` and `n` joined by `_`.
pub open spec fn sub_path(q: Seq<u8>, n: Seq<u8>) -> Seq<u8> {
    q + lit("_") + n
}

/// The rejection of an index at or beyond `count`.
pub open spec fn check_index(count: nat) -> Seq<u8> {
    lit("        if index >= ") + dec(count) + lit(" {\n            return Err(IndexError);\n        }\n")
}

pub open spec fn is_bool_field(f: Field) -> bool {
    f.variants@.len() == 0 && f.spec_elem_width() == 1
}

/// Type of the value a field is set to.
pub open spec fn field_ty(p: Seq<u8>, w: u32, f: Field) -> Seq<u8> {
    if f.spec_is_enum() {
        sub_path(p, f.name@)
    } else if is_bool_field(f) {
        lit("bool")
    } else {
        prim_ty(w)
    }
}

/// Type of the value a field is read as; an enumerated field's decode
/// may fail.
pub open spec fn read_ty(p: Seq<u8>, w: u32, f: Field) -> Seq<u8> {
    if f.spec_is_enum() {
        lit("Result<") + sub_path(p, f.name@) + lit(", DecodeError>")
    } else {
        field_ty(p, w, f)
    }
}

/// The raw bits `x` of a field converted to its read type.
pub open spec fn conv(p: Seq<u8>, f: Field, x: Seq<u8>) -> Seq<u8> {
    if f.spec_is_enum() {
        sub_path(p, f.name@) + lit("::from_raw(") + x + lit(")")
    } else if is_bool_field(f) {
        lit("(") + x + lit(") != 0")
    } else {
        x
    }
}

/// The mask of one element of a field, in decimal.
pub open spec fn mask_text(f: Field) -> Seq<u8> {
    dec(crate::layout::low_mask(f.spec_elem_width() as u32) as nat)
}

/// How a setter obtains the word it modifies: by reading it, or from
/// zero for a register whose fields are all write-only.
pub open spec fn read_expr(write_only: bool) -> Seq<u8> {
    if write_only {
        lit("0")
    } else {
        lit("self.get().raw()")
    }
}

/// The setter of a writable field: read, clear the field's bits, or in
/// the new value, write.
pub open spec fn setter(p: Seq<u8>, w: u32, wo: bool, f: Field) -> Seq<u8> {
    if !f.is_array {
        lit("    pub fn set_") + f.name@ + lit("(&self, value: ") + field_ty(p, w, f) + lit(
            ") -> &Self {\n        let w = ",
        ) + read_expr(wo) + lit(";\n        self.set((w & !(") + mask_text(f) + lit(" << ") + dec(
            f.spec_low() as nat,
        ) + lit(")) | (((value as ") + prim_ty(w) + lit(") & ") + mask_text(f) + lit(") << ") + dec(
            f.spec_low() as nat,
        ) + lit("))\n    }\n")
    } else {
        lit("    pub fn set_") + f.name@ + lit("(&self, index: usize, value: ") + field_ty(p, w, f)
            + lit(") -> Result<&Self, IndexError> {\n") + check_index(f.count as nat) + lit(
            "        let s = ",
        ) + dec(f.spec_low() as nat) + lit(" + index * ") + dec(f.spec_elem_width()) + lit(
            ";\n        let w = ",
        ) + read_expr(wo) + lit(";\n        Ok(self.set((w & !(") + mask_text(f) + lit(
            " << s)) | (((value as ",
        ) + prim_ty(w) + lit(") & ") + mask_text(f) + lit(") << s)))\n    }\n")
    }
}

/// The accessor of a readable field on the snapshot.
pub open spec fn getter(p: Seq<u8>, w: u32, f: Field) -> Seq<u8> {
    if !f.is_array {
        lit("    pub fn ") + f.name@ + lit("(&self) -> ") + read_ty(p, w, f) + lit(" {\n        ")
            + conv(
            p,
            f,
            lit("(self.value >> ") + dec(f.spec_low() as nat) + lit(") & ") + mask_text(f),
        ) + lit("\n    }\n")
    } else {
        lit("    pub fn ") + f.name@ + lit("(&self, index: usize) -> Result<") + read_ty(p, w, f)
            + lit(", IndexError> {\n") + check_index(f.count as nat) + lit("        let s = ") + dec(
            f.spec_low() as nat,
        ) + lit(" + index * ") + dec(f.spec_elem_width()) + lit(";\n        Ok(") + conv(
            p,
            f,
            lit("(self.value >> s) & ") + mask_text(f),
        ) + lit(")\n    }\n")
    }
}

/// The setters of the writable fields, in order.
pub open spec fn setters(p: Seq<u8>, w: u32, wo: bool, fs: Seq<Field>) -> Seq<u8>
    decreases fs.len(),
{
    if fs.len() == 0 {
        seq![]
    } else {
        setters(p, w, wo, fs.drop_last()) + if fs.last().access.spec_writable() {
            setter(p, w, wo, fs.last())
        } else {
            seq![]
        }
    }
}

/// The snapshot accessors of the readable fields, in order.
pub open spec fn getters(p: Seq<u8>, w: u32, fs: Seq<Field>) -> Seq<u8>
    decreases fs.len(),
{
    if fs.len() == 0 {
        seq![]
    } else {
        getters(p, w, fs.drop_last()) + if fs.last().access.spec_readable() {
            getter(p, w, fs.last())
        } else {
            seq![]
        }
    }
}

pub open spec fn variant_decl(v: Variant) -> Seq<u8> {
    lit("    ") + v.name@ + lit(" = ") + dec(v.code as nat) + lit(",\n")
}

pub open spec fn variant_decls(vs: Seq<Variant>) -> Seq<u8>
    decreases vs.len(),
{
    if vs.len() == 0 {
        seq![]
    } else {
        variant_decls(vs.drop_last()) + variant_decl(vs.last())
    }
}

pub open spec fn variant_arm(e: Seq<u8>, v: Variant) -> Seq<u8> {
    lit("            ") + dec(v.code as nat) + lit(" => Ok(") + e + lit("::") + v.name@ + lit("),\n")
}

pub open spec fn variant_arms(e: Seq<u8>, vs: Seq<Variant>) -> Seq<u8>
    decreases vs.len(),
{
    if vs.len() == 0 {
        seq![]
    } else {
        variant_arms(e, vs.drop_last()) + variant_arm(e, vs.last())
    }
}

/// The closed value type of an enumerated field, with its partial decode
/// from raw bits; encoding is a cast.
pub open spec fn enum_item(p: Seq<u8>, w: u32, f: Field) -> Seq<u8> {
    lit("\n#[derive(Clone, Copy, Debug, PartialEq, Eq)]\npub enum ") + sub_path(p, f.name@) + lit(
        " {\n",
    ) + variant_decls(f.variants@) + lit("}\n\nimpl ") + sub_path(p, f.name@) + lit(
        " {\n    pub fn from_raw(raw: ",
    ) + prim_ty(w) + lit(") -> Result<") + sub_path(p, f.name@) + lit(
        ", DecodeError> {\n        match raw {\n",
    ) + variant_arms(sub_path(p, f.name@), f.variants@) + lit(
        "            _ => Err(DecodeError { code: raw as u32 }),\n        }\n    }\n}\n",
    )
}

pub open spec fn enum_items(p: Seq<u8>, w: u32, fs: Seq<Field>) -> Seq<u8>
    decreases fs.len(),
{
    if fs.len() == 0 {
        seq![]
    } else {
        enum_items(p, w, fs.drop_last()) + if fs.last().spec_is_enum() {
            enum_item(p, w, fs.last())
        } else {
            seq![]
        }
    }
}

/// Every field of the register is write-only: setters then start from a
/// zero word instead of reading the register.
pub open spec fn all_write_only(fs: Seq<Field>) -> bool {
    fs.len() > 0 && forall|i: int| 0 <= i < fs.len() ==> (#[trigger] fs[i]).access is WriteOnly
}

/// The mutator and snapshot bindings of a register word at path `p`,
/// and the value types of its enumerated fields.
pub open spec fn reg_item(p: Seq<u8>, w: u32, fs: Seq<Field>) -> Seq<u8> {
    lit("\npub struct ") + p + lit("_Update {\n    addr: usize,\n}\n\nimpl ") + p + lit(
        "_Update {\n    pub fn get(&self) -> ",
    ) + p + lit("_Get {\n        ") + p + lit("_Get { value: mmio::read::<") + prim_ty(w) + lit(
        ">(self.addr) }\n    }\n\n    pub fn set(&self, value: ",
    ) + prim_ty(w) + lit(") -> &Self {\n        mmio::write::<") + prim_ty(w) + lit(
        ">(self.addr, value);\n        self\n    }\n",
    ) + setters(p, w, all_write_only(fs), fs) + lit("}\n\npub struct ") + p + lit(
        "_Get {\n    value: ",
    ) + prim_ty(w) + lit(",\n}\n\nimpl ") + p + lit("_Get {\n    pub fn raw(&self) -> ") + prim_ty(
        w,
    ) + lit(" {\n        self.value\n    }\n") + getters(p, w, fs) + lit("}\n") + enum_items(p, w, fs)
}

/// The accessor, on the block or group at path `q`, of its entry `e`;
/// a register array or a group takes an index, checked against its count.
pub open spec fn entry_accessor(q: Seq<u8>, e: Reg) -> Seq<u8> {
    match e.ty {
        RegType::Prim(w, _) => if !e.is_array {
            lit("    pub fn ") + e.name@ + lit("(&self) -> ") + sub_path(q, e.name@) + lit(
                "_Update {\n        ",
            ) + sub_path(q, e.name@) + lit("_Update { addr: self.base + ") + dec(e.offset as nat)
                + lit(" }\n    }\n")
        } else {
            lit("    pub fn ") + e.name@ + lit("(&self, index: usize) -> Result<") + sub_path(
                q,
                e.name@,
            ) + lit("_Update, IndexError> {\n") + check_index(e.count as nat) + lit("        Ok(")
                + sub_path(q, e.name@) + lit("_Update { addr: self.base + ") + dec(e.offset as nat)
                + lit(" + index * ") + dec((w / 8) as nat) + lit(" })\n    }\n")
        },
        RegType::Group(regs) => lit("    pub fn ") + e.name@ + lit("(&self, index: usize) -> Result<")
            + sub_path(q, e.name@) + lit(", IndexError> {\n") + check_index(e.count as nat) + lit(
            "        Ok(",
        ) + sub_path(q, e.name@) + lit(" { base: self.base + ") + dec(e.offset as nat) + lit(
            " + index * ",
        ) + dec(group_stride(regs@) as nat) + lit(" })\n    }\n"),
    }
}

pub open spec fn accessors(q: Seq<u8>, es: Seq<Reg>) -> Seq<u8>
    decreases es.len(),
{
    if es.len() == 0 {
        seq![]
    } else {
        accessors(q, es.drop_last()) + entry_accessor(q, es.last())
    }
}

/// The items of a sub-register of a group.
pub open spec fn sub_item(q: Seq<u8>, e: Reg) -> Seq<u8> {
    match e.ty {
        RegType::Prim(w, fs) => reg_item(sub_path(q, e.name@), w, fs@),
        RegType::Group(_) => seq![],
    }
}

pub open spec fn sub_items(q: Seq<u8>, es: Seq<Reg>) -> Seq<u8>
    decreases es.len(),
{
    if es.len() == 0 {
        seq![]
    } else {
        sub_items(q, es.drop_last()) + sub_item(q, es.last())
    }
}

/// A block or a group element: a struct holding its base address, its
/// accessors, and the items of its registers.
pub open spec fn container(p: Seq<u8>, at: bool, acc: Seq<u8>, items: Seq<u8>) -> Seq<u8> {
    lit("\npub struct ") + p + lit(" {\n    base: usize,\n}\n\nimpl ") + p + lit(" {\n") + if at {
        lit("    pub const fn at(base: usize) -> ") + p + lit(" {\n        ") + p + lit(
            " { base }\n    }\n",
        )
    } else {
        seq![]
    } + acc + lit("}\n") + items
}

/// The items of an entry of the block.
pub open spec fn entry_item(q: Seq<u8>, e: Reg) -> Seq<u8> {
    match e.ty {
        RegType::Prim(w, fs) => reg_item(sub_path(q, e.name@), w, fs@),
        RegType::Group(regs) => container(
            sub_path(q, e.name@),
            false,
            accessors(sub_path(q, e.name@), regs@),
            sub_items(sub_path(q, e.name@), regs@),
        ),
    }
}

pub open spec fn entry_items(q: Seq<u8>, es: Seq<Reg>) -> Seq<u8>
    decreases es.len(),
{
    if es.len() == 0 {
        seq![]
    } else {
        entry_items(q, es.drop_last()) + entry_item(q, es.last())
    }
}

/// The error types the accessors return.
pub open spec fn header() -> Seq<u8> {
    lit(
        "#[derive(Clone, Copy, Debug, PartialEq, Eq)]\npub struct IndexError;\n\n#[derive(Clone, Copy, Debug, PartialEq, Eq)]\npub struct DecodeError {\n    pub code: u32,\n}\n",
    )
}

/// The source text for a register block.
pub open spec fn block_text(b: RegBlock) -> Seq<u8> {
    header() + container(
        b.name@,
        true,
        accessors(b.name@, b.entries@),
        entry_items(b.name@, b.entries@),
    )
}

/// A field of a register of a supported width that passed validation.
pub open spec fn field_ready(f: Field, w: u32) -> bool {
    crate::validate::field_valid(f, w) && (w == 8 || w == 16 || w == 32)
}

fn emit_prim_ty(out: &mut Vec<u8>, w: u32)
    ensures
        final(out)@ == old(out)@ + prim_ty(w),
{
    if w == 8 {
        put(out, "u8");
    } else if w == 16 {
        put(out, "u16");
    } else {
        put(out, "u32");
    }
}

/// `q` and `n` joined by `_`.
fn name_path(q: &Vec<u8>, n: &Vec<u8>) -> (r: Vec<u8>)
    ensures
        r@ == sub_path(q@, n@),
{
    let mut r: Vec<u8> = Vec::new();
    put_bytes(&mut r, q);
    put(&mut r, "_");
    put_bytes(&mut r, n);
    proof {
        assert(r@ =~= sub_path(q@, n@));
    }
    r
}

fn emit_check_index(out: &mut Vec<u8>, count: u32)
    ensures
        final(out)@ == old(out)@ + check_index(count as nat),
{
    put(out, "        if index >= ");
    put_dec(out, count as u128);
    put(out, " {\n            return Err(IndexError);\n        }\n");
    proof {
        assert(out@ =~= old(out)@ + check_index(count as nat));
    }
}

proof fn lemma_elem_width_range(f: Field, w: u32)
    requires
        field_ready(f, w),
    ensures
        1 <= f.spec_elem_width() <= 32,
        f.spec_low() < 32,
{
    let span = f.spec_span_bits();
    let c = f.count as nat;
    assert(span / c >= 1 && span / c <= span) by (nonlinear_arith)
        requires
            span >= 1,
            c >= 1,
            span % c == 0,
    ;
}

/// The mask of one element of a field.
fn field_mask(f: &Field, w: u32) -> (r: u32)
    requires
        field_ready(*f, w),
    ensures
        r == crate::layout::low_mask(f.spec_elem_width() as u32),
{
    proof {
        lemma_elem_width_range(*f, w);
    }
    crate::layout::mask(f.elem_width() as u32)
}

fn emit_field_ty(out: &mut Vec<u8>, p: &Vec<u8>, w: u32, f: &Field)
    ensures
        final(out)@ == old(out)@ + field_ty(p@, w, *f),
{
    if f.variants.len() > 0 {
        let e = name_path(p, &f.name);
        put_bytes(out, &e);
    } else if f.elem_width() == 1 {
        put(out, "bool");
    } else {
        emit_prim_ty(out, w);
    }
}

fn emit_read_ty(out: &mut Vec<u8>, p: &Vec<u8>, w: u32, f: &Field)
    ensures
        final(out)@ == old(out)@ + read_ty(p@, w, *f),
{
    if f.variants.len() > 0 {
        put(out, "Result<");
        let e = name_path(p, &f.name);
        put_bytes(out, &e);
        put(out, ", DecodeError>");
        proof {
            assert(out@ =~= old(out)@ + read_ty(p@, w, *f));
        }
    } else {
        emit_field_ty(out, p, w, f);
    }
}

fn emit_read_expr(out: &mut Vec<u8>, wo: bool)
    ensures
        final(out)@ == old(out)@ + read_expr(wo),
{
    if wo {
        put(out, "0");
    } else {
        put(out, "self.get().raw()");
    }
}

/// Appending in two steps appends the concatenation.
proof fn lemma_grow(o: Seq<u8>, acc: Seq<u8>, x: Seq<u8>)
    ensures
        (o + acc) + x == o + (acc + x),
{
    assert((o + acc) + x =~= o + (acc + x));
}

/// Emits the setter of a field.
fn emit_setter(out: &mut Vec<u8>, p: &Vec<u8>, w: u32, wo: bool, f: &Field)
    requires
        field_ready(*f, w),
    ensures
        final(out)@ == old(out)@ + setter(p@, w, wo, *f),
{
    let m = field_mask(f, w) as u128;
    let low = f.low_bit() as u128;
    let ghost mut acc: Seq<u8> = Seq::empty();
    if !f.is_array {
        put(out, "    pub fn set_");
        proof { acc = lit("    pub fn set_"); }
        put_bytes(out, &f.name);
        proof { lemma_grow(old(out)@, acc, f.name@); acc = acc + f.name@; }
        put(out, "(&self, value: ");
        proof { lemma_grow(old(out)@, acc, lit("(&self, value: ")); acc = acc + lit("(&self, value: "); }
        emit_field_ty(out, p, w, f);
        proof { lemma_grow(old(out)@, acc, field_ty(p@, w, *f)); acc = acc + field_ty(p@, w, *f); }
        put(out, ") -> &Self {\n        let w = ");
        proof { lemma_grow(old(out)@, acc, lit(") -> &Self {\n        let w = ")); acc = acc + lit(") -> &Self {\n        let w = "); }
        emit_read_expr(out, wo);
        proof { lemma_grow(old(out)@, acc, read_expr(wo)); acc = acc + read_expr(wo); }
        put(out, ";\n        self.set((w & !(");
        proof { lemma_grow(old(out)@, acc, lit(";\n        self.set((w & !(")); acc = acc + lit(";\n        self.set((w & !("); }
        put_dec(out, m);
        proof { lemma_grow(old(out)@, acc, mask_text(*f)); acc = acc + mask_text(*f); }
        put(out, " << ");
        proof { lemma_grow(old(out)@, acc, lit(" << ")); acc = acc + lit(" << "); }
        put_dec(out, low);
        proof { lemma_grow(old(out)@, acc, dec(f.spec_low() as nat)); acc = acc + dec(f.spec_low() as nat); }
        put(out, ")) | (((value as ");
        proof { lemma_grow(old(out)@, acc, lit(")) | (((value as ")); acc = acc + lit(")) | (((value as "); }
        emit_prim_ty(out, w);
        proof { lemma_grow(old(out)@, acc, prim_ty(w)); acc = acc + prim_ty(w); }
        put(out, ") & ");
        proof { lemma_grow(old(out)@, acc, lit(") & ")); acc = acc + lit(") & "); }
        put_dec(out, m);
        proof { lemma_grow(old(out)@, acc, mask_text(*f)); acc = acc + mask_text(*f); }
        put(out, ") << ");
        proof { lemma_grow(old(out)@, acc, lit(") << ")); acc = acc + lit(") << "); }
        put_dec(out, low);
        proof { lemma_grow(old(out)@, acc, dec(f.spec_low() as nat)); acc = acc + dec(f.spec_low() as nat); }
        put(out, "))\n    }\n");
        proof { lemma_grow(old(out)@, acc, lit("))\n    }\n")); acc = acc + lit("))\n    }\n"); }
    } else {
        put(out, "    pub fn set_");
        proof { acc = lit("    pub fn set_"); }
        put_bytes(out, &f.name);
        proof { lemma_grow(old(out)@, acc, f.name@); acc = acc + f.name@; }
        put(out, "(&self, index: usize, value: ");
        proof { lemma_grow(old(out)@, acc, lit("(&self, index: usize, value: ")); acc = acc + lit("(&self, index: usize, value: "); }
        emit_field_ty(out, p, w, f);
        proof { lemma_grow(old(out)@, acc, field_ty(p@, w, *f)); acc = acc + field_ty(p@, w, *f); }
        put(out, ") -> Result<&Self, IndexError> {\n");
        proof { lemma_grow(old(out)@, acc, lit(") -> Result<&Self, IndexError> {\n")); acc = acc + lit(") -> Result<&Self, IndexError> {\n"); }
        emit_check_index(out, f.count);
        proof { lemma_grow(old(out)@, acc, check_index(f.count as nat)); acc = acc + check_index(f.count as nat); }
        put(out, "        let s = ");
        proof { lemma_grow(old(out)@, acc, lit("        let s = ")); acc = acc + lit("        let s = "); }
        put_dec(out, low);
        proof { lemma_grow(old(out)@, acc, dec(f.spec_low() as nat)); acc = acc + dec(f.spec_low() as nat); }
        put(out, " + index * ");
        proof { lemma_grow(old(out)@, acc, lit(" + index * ")); acc = acc + lit(" + index * "); }
        put_dec(out, f.elem_width() as u128);
        proof { lemma_grow(old(out)@, acc, dec(f.spec_elem_width())); acc = acc + dec(f.spec_elem_width()); }
        put(out, ";\n        let w = ");
        proof { lemma_grow(old(out)@, acc, lit(";\n        let w = ")); acc = acc + lit(";\n        let w = "); }
        emit_read_expr(out, wo);
        proof { lemma_grow(old(out)@, acc, read_expr(wo)); acc = acc + read_expr(wo); }
        put(out, ";\n        Ok(self.set((w & !(");
        proof { lemma_grow(old(out)@, acc, lit(";\n        Ok(self.set((w & !(")); acc = acc + lit(";\n        Ok(self.set((w & !("); }
        put_dec(out, m);
        proof { lemma_grow(old(out)@, acc, mask_text(*f)); acc = acc + mask_text(*f); }
        put(out, " << s)) | (((value as ");
        proof { lemma_grow(old(out)@, acc, lit(" << s)) | (((value as ")); acc = acc + lit(" << s)) | (((value as "); }
        emit_prim_ty(out, w);
        proof { lemma_grow(old(out)@, acc, prim_ty(w)); acc = acc + prim_ty(w); }
        put(out, ") & ");
        proof { lemma_grow(old(out)@, acc, lit(") & ")); acc = acc + lit(") & "); }
        put_dec(out, m);
        proof { lemma_grow(old(out)@, acc, mask_text(*f)); acc = acc + mask_text(*f); }
        put(out, ") << s)))\n    }\n");
        proof { lemma_grow(old(out)@, acc, lit(") << s)))\n    }\n")); acc = acc + lit(") << s)))\n    }\n"); }
    }
}

/// Emits the conversion to a field's read type of the bits of a plain
/// field at its low bit, or of an array element at `s`.
fn emit_conv(out: &mut Vec<u8>, p: &Vec<u8>, w: u32, f: &Field)
    requires
        field_ready(*f, w),
    ensures
        final(out)@ == old(out)@ + conv(
            p@,
            *f,
            if f.is_array {
                lit("(self.value >> s) & ") + mask_text(*f)
            } else {
                lit("(self.value >> ") + dec(f.spec_low() as nat) + lit(") & ") + mask_text(*f)
            },
        ),
{
    let m = field_mask(f, w) as u128;
    let low = f.low_bit() as u128;
    let ghost x = if f.is_array {
        lit("(self.value >> s) & ") + mask_text(*f)
    } else {
        lit("(self.value >> ") + dec(f.spec_low() as nat) + lit(") & ") + mask_text(*f)
    };
    let mut bits: Vec<u8> = Vec::new();
    if f.is_array {
        put(&mut bits, "(self.value >> s) & ");
        put_dec(&mut bits, m);
    } else {
        put(&mut bits, "(self.value >> ");
        put_dec(&mut bits, low);
        put(&mut bits, ") & ");
        put_dec(&mut bits, m);
    }
    proof {
        assert(bits@ =~= x);
    }
    if f.variants.len() > 0 {
        let e = name_path(p, &f.name);
        put_bytes(out, &e);
        put(out, "::from_raw(");
        put_bytes(out, &bits);
        put(out, ")");
    } else if f.elem_width() == 1 {
        put(out, "(");
        put_bytes(out, &bits);
        put(out, ") != 0");
    } else {
        put_bytes(out, &bits);
    }
    proof {
        assert(out@ =~= old(out)@ + conv(p@, *f, x));
    }
}

/// Emits the snapshot accessor of a field.
fn emit_getter(out: &mut Vec<u8>, p: &Vec<u8>, w: u32, f: &Field)
    requires
        field_ready(*f, w),
    ensures
        final(out)@ == old(out)@ + getter(p@, w, *f),
{
    let low = f.low_bit() as u128;
    let ghost mut acc: Seq<u8> = Seq::empty();
    if !f.is_array {
        put(out, "    pub fn ");
        proof { acc = lit("    pub fn "); }
        put_bytes(out, &f.name);
        proof { lemma_grow(old(out)@, acc, f.name@); acc = acc + f.name@; }
        put(out, "(&self) -> ");
        proof { lemma_grow(old(out)@, acc, lit("(&self) -> ")); acc = acc + lit("(&self) -> "); }
        emit_read_ty(out, p, w, f);
        proof { lemma_grow(old(out)@, acc, read_ty(p@, w, *f)); acc = acc + read_ty(p@, w, *f); }
        put(out, " {\n        ");
        proof { lemma_grow(old(out)@, acc, lit(" {\n        ")); acc = acc + lit(" {\n        "); }
        emit_conv(out, p, w, f);
        proof { lemma_grow(old(out)@, acc, conv(p@, *f, lit("(self.value >> ") + dec(f.spec_low() as nat) + lit(") & ") + mask_text(*f))); acc = acc + conv(p@, *f, lit("(self.value >> ") + dec(f.spec_low() as nat) + lit(") & ") + mask_text(*f)); }
        put(out, "\n    }\n");
        proof { lemma_grow(old(out)@, acc, lit("\n    }\n")); acc = acc + lit("\n    }\n"); }
    } else {
        put(out, "    pub fn ");
        proof { acc = lit("    pub fn "); }
        put_bytes(out, &f.name);
        proof { lemma_grow(old(out)@, acc, f.name@); acc = acc + f.name@; }
        put(out, "(&self, index: usize) -> Result<");
        proof { lemma_grow(old(out)@, acc, lit("(&self, index: usize) -> Result<")); acc = acc + lit("(&self, index: usize) -> Result<"); }
        emit_read_ty(out, p, w, f);
        proof { lemma_grow(old(out)@, acc, read_ty(p@, w, *f)); acc = acc + read_ty(p@, w, *f); }
        put(out, ", IndexError> {\n");
        proof { lemma_grow(old(out)@, acc, lit(", IndexError> {\n")); acc = acc + lit(", IndexError> {\n"); }
        emit_check_index(out, f.count);
        proof { lemma_grow(old(out)@, acc, check_index(f.count as nat)); acc = acc + check_index(f.count as nat); }
        put(out, "        let s = ");
        proof { lemma_grow(old(out)@, acc, lit("        let s = ")); acc = acc + lit("        let s = "); }
        put_dec(out, low);
        proof { lemma_grow(old(out)@, acc, dec(f.spec_low() as nat)); acc = acc + dec(f.spec_low() as nat); }
        put(out, " + index * ");
        proof { lemma_grow(old(out)@, acc, lit(" + index * ")); acc = acc + lit(" + index * "); }
        put_dec(out, f.elem_width() as u128);
        proof { lemma_grow(old(out)@, acc, dec(f.spec_elem_width())); acc = acc + dec(f.spec_elem_width()); }
        put(out, ";\n        Ok(");
        proof { lemma_grow(old(out)@, acc, lit(";\n        Ok(")); acc = acc + lit(";\n        Ok("); }
        emit_conv(out, p, w, f);
        proof { lemma_grow(old(out)@, acc, conv(p@, *f, lit("(self.value >> s) & ") + mask_text(*f))); acc = acc + conv(p@, *f, lit("(self.value >> s) & ") + mask_text(*f)); }
        put(out, ")\n    }\n");
        proof { lemma_grow(old(out)@, acc, lit(")\n    }\n")); acc = acc + lit(")\n    }\n"); }
    }
}

proof fn lemma_prefix_step<T>(s: Seq<T>, i: int)
    requires
        0 <= i < s.len(),
    ensures
        s.subrange(0, i + 1).drop_last() == s.subrange(0, i),
        s.subrange(0, i + 1).last() == s[i],
        s.subrange(0, i + 1).len() > 0,
{
    assert(s.subrange(0, i + 1).drop_last() =~= s.subrange(0, i));
}

proof fn lemma_whole<T>(s: Seq<T>)
    ensures
        s.subrange(0, s.len() as int) == s,
{
    assert(s.subrange(0, s.len() as int) =~= s);
}

proof fn lemma_empty_right(a: Seq<u8>)
    ensures
        a + Seq::<u8>::empty() == a,
        a + seq![] == a,
{
    assert(a + Seq::<u8>::empty() =~= a);
}

fn emit_setters(out: &mut Vec<u8>, p: &Vec<u8>, w: u32, wo: bool, fs: &Vec<Field>)
    requires
        forall|i: int| 0 <= i < fs@.len() ==> field_ready(#[trigger] fs@[i], w),
    ensures
        final(out)@ == old(out)@ + setters(p@, w, wo, fs@),
{
    let mut i: usize = 0;
    proof {
        lemma_empty_right(out@);
    }
    while i < fs.len()
        invariant
            0 <= i <= fs@.len(),
            forall|k: int| 0 <= k < fs@.len() ==> field_ready(#[trigger] fs@[k], w),
            out@ == old(out)@ + setters(p@, w, wo, fs@.subrange(0, i as int)),
        decreases fs@.len() - i,
    {
        proof {
            lemma_prefix_step(fs@, i as int);
        }
        let ghost before = out@;
        if fs[i].access.writable() {
            emit_setter(out, p, w, wo, &fs[i]);
            proof {
                lemma_grow(old(out)@, setters(p@, w, wo, fs@.subrange(0, i as int)), setter(p@, w, wo, fs@[i as int]));
            }
        } else {
            proof {
                lemma_empty_right(setters(p@, w, wo, fs@.subrange(0, i as int)));
            }
        }
        i = i + 1;
    }
    proof {
        lemma_whole(fs@);
    }
}

fn emit_getters(out: &mut Vec<u8>, p: &Vec<u8>, w: u32, fs: &Vec<Field>)
    requires
        forall|i: int| 0 <= i < fs@.len() ==> field_ready(#[trigger] fs@[i], w),
    ensures
        final(out)@ == old(out)@ + getters(p@, w, fs@),
{
    let mut i: usize = 0;
    proof {
        lemma_empty_right(out@);
    }
    while i < fs.len()
        invariant
            0 <= i <= fs@.len(),
            forall|k: int| 0 <= k < fs@.len() ==> field_ready(#[trigger] fs@[k], w),
            out@ == old(out)@ + getters(p@, w, fs@.subrange(0, i as int)),
        decreases fs@.len() - i,
    {
        proof {
            lemma_prefix_step(fs@, i as int);
        }
        if fs[i].access.readable() {
            emit_getter(out, p, w, &fs[i]);
            proof {
                lemma_grow(old(out)@, getters(p@, w, fs@.subrange(0, i as int)), getter(p@, w, fs@[i as int]));
            }
        } else {
            proof {
                lemma_empty_right(getters(p@, w, fs@.subrange(0, i as int)));
            }
        }
        i = i + 1;
    }
    proof {
        lemma_whole(fs@);
    }
}

fn emit_variant_decl(out: &mut Vec<u8>, v: &Variant)
    ensures
        final(out)@ == old(out)@ + variant_decl(*v),
{
    let ghost mut acc: Seq<u8> = Seq::empty();
    put(out, "    ");
    proof { acc = lit("    "); }
    put_bytes(out, &v.name);
    proof { lemma_grow(old(out)@, acc, v.name@); acc = acc + v.name@; }
    put(out, " = ");
    proof { lemma_grow(old(out)@, acc, lit(" = ")); acc = acc + lit(" = "); }
    put_dec(out, v.code as u128);
    proof { lemma_grow(old(out)@, acc, dec(v.code as nat)); acc = acc + dec(v.code as nat); }
    put(out, ",\n");
    proof { lemma_grow(old(out)@, acc, lit(",\n")); acc = acc + lit(",\n"); }
}

fn emit_variant_arm(out: &mut Vec<u8>, e: &Vec<u8>, v: &Variant)
    ensures
        final(out)@ == old(out)@ + variant_arm(e@, *v),
{
    let ghost mut acc: Seq<u8> = Seq::empty();
    put(out, "            ");
    proof { acc = lit("            "); }
    put_dec(out, v.code as u128);
    proof { lemma_grow(old(out)@, acc, dec(v.code as nat)); acc = acc + dec(v.code as nat); }
    put(out, " => Ok(");
    proof { lemma_grow(old(out)@, acc, lit(" => Ok(")); acc = acc + lit(" => Ok("); }
    put_bytes(out, e);
    proof { lemma_grow(old(out)@, acc, e@); acc = acc + e@; }
    put(out, "::");
    proof { lemma_grow(old(out)@, acc, lit("::")); acc = acc + lit("::"); }
    put_bytes(out, &v.name);
    proof { lemma_grow(old(out)@, acc, v.name@); acc = acc + v.name@; }
    put(out, "),\n");
    proof { lemma_grow(old(out)@, acc, lit("),\n")); acc = acc + lit("),\n"); }
}

fn emit_variant_decls(out: &mut Vec<u8>, vs: &Vec<Variant>)
    ensures
        final(out)@ == old(out)@ + variant_decls(vs@),
{
    let mut i: usize = 0;
    proof {
        lemma_empty_right(out@);
    }
    while i < vs.len()
        invariant
            0 <= i <= vs@.len(),
            out@ == old(out)@ + variant_decls(vs@.subrange(0, i as int)),
        decreases vs@.len() - i,
    {
        proof {
            lemma_prefix_step(vs@, i as int);
        }
        emit_variant_decl(out, &vs[i]);
        proof {
            lemma_grow(old(out)@, variant_decls(vs@.subrange(0, i as int)), variant_decl(vs@[i as int]));
        }
        i = i + 1;
    }
    proof {
        lemma_whole(vs@);
    }
}

fn emit_variant_arms(out: &mut Vec<u8>, e: &Vec<u8>, vs: &Vec<Variant>)
    ensures
        final(out)@ == old(out)@ + variant_arms(e@, vs@),
{
    let mut i: usize = 0;
    proof {
        lemma_empty_right(out@);
    }
    while i < vs.len()
        invariant
            0 <= i <= vs@.len(),
            out@ == old(out)@ + variant_arms(e@, vs@.subrange(0, i as int)),
        decreases vs@.len() - i,
    {
        proof {
            lemma_prefix_step(vs@, i as int);
        }
        emit_variant_arm(out, e, &vs[i]);
        proof {
            lemma_grow(old(out)@, variant_arms(e@, vs@.subrange(0, i as int)), variant_arm(e@, vs@[i as int]));
        }
        i = i + 1;
    }
    proof {
        lemma_whole(vs@);
    }
}

fn emit_enum_item(out: &mut Vec<u8>, p: &Vec<u8>, w: u32, f: &Field)
    ensures
        final(out)@ == old(out)@ + enum_item(p@, w, *f),
{
    let e = name_path(p, &f.name);
    let ghost mut acc: Seq<u8> = Seq::empty();
    put(out, "\n#[derive(Clone, Copy, Debug, PartialEq, Eq)]\npub enum ");
    proof { acc = lit("\n#[derive(Clone, Copy, Debug, PartialEq, Eq)]\npub enum "); }
    put_bytes(out, &e);
    proof { lemma_grow(old(out)@, acc, sub_path(p@, f.name@)); acc = acc + sub_path(p@, f.name@); }
    put(out, " {\n");
    proof { lemma_grow(old(out)@, acc, lit(" {\n")); acc = acc + lit(" {\n"); }
    emit_variant_decls(out, &f.variants);
    proof { lemma_grow(old(out)@, acc, variant_decls(f.variants@)); acc = acc + variant_decls(f.variants@); }
    put(out, "}\n\nimpl ");
    proof { lemma_grow(old(out)@, acc, lit("}\n\nimpl ")); acc = acc + lit("}\n\nimpl "); }
    put_bytes(out, &e);
    proof { lemma_grow(old(out)@, acc, sub_path(p@, f.name@)); acc = acc + sub_path(p@, f.name@); }
    put(out, " {\n    pub fn from_raw(raw: ");
    proof { lemma_grow(old(out)@, acc, lit(" {\n    pub fn from_raw(raw: ")); acc = acc + lit(" {\n    pub fn from_raw(raw: "); }
    emit_prim_ty(out, w);
    proof { lemma_grow(old(out)@, acc, prim_ty(w)); acc = acc + prim_ty(w); }
    put(out, ") -> Result<");
    proof { lemma_grow(old(out)@, acc, lit(") -> Result<")); acc = acc + lit(") -> Result<"); }
    put_bytes(out, &e);
    proof { lemma_grow(old(out)@, acc, sub_path(p@, f.name@)); acc = acc + sub_path(p@, f.name@); }
    put(out, ", DecodeError> {\n        match raw {\n");
    proof { lemma_grow(old(out)@, acc, lit(", DecodeError> {\n        match raw {\n")); acc = acc + lit(", DecodeError> {\n        match raw {\n"); }
    emit_variant_arms(out, &e, &f.variants);
    proof { lemma_grow(old(out)@, acc, variant_arms(sub_path(p@, f.name@), f.variants@)); acc = acc + variant_arms(sub_path(p@, f.name@), f.variants@); }
    put(out, "            _ => Err(DecodeError { code: raw as u32 }),\n        }\n    }\n}\n");
    proof { lemma_grow(old(out)@, acc, lit("            _ => Err(DecodeError { code: raw as u32 }),\n        }\n    }\n}\n")); acc = acc + lit("            _ => Err(DecodeError { code: raw as u32 }),\n        }\n    }\n}\n"); }
}

fn emit_enum_items(out: &mut Vec<u8>, p: &Vec<u8>, w: u32, fs: &Vec<Field>)
    ensures
        final(out)@ == old(out)@ + enum_items(p@, w, fs@),
{
    let mut i: usize = 0;
    proof {
        lemma_empty_right(out@);
    }
    while i < fs.len()
        invariant
            0 <= i <= fs@.len(),
            out@ == old(out)@ + enum_items(p@, w, fs@.subrange(0, i as int)),
        decreases fs@.len() - i,
    {
        proof {
            lemma_prefix_step(fs@, i as int);
        }
        if fs[i].variants.len() > 0 {
            emit_enum_item(out, p, w, &fs[i]);
            proof {
                lemma_grow(old(out)@, enum_items(p@, w, fs@.subrange(0, i as int)), enum_item(p@, w, fs@[i as int]));
            }
        } else {
            proof {
                lemma_empty_right(enum_items(p@, w, fs@.subrange(0, i as int)));
            }
        }
        i = i + 1;
    }
    proof {
        lemma_whole(fs@);
    }
}

/// Whether every field is write-only.
fn write_only(fs: &Vec<Field>) -> (r: bool)
    ensures
        r == all_write_only(fs@),
{
    if fs.len() == 0 {
        return false;
    }
    let mut i: usize = 0;
    while i < fs.len()
        invariant
            0 <= i <= fs@.len(),
            forall|k: int| 0 <= k < i ==> (#[trigger] fs@[k]).access is WriteOnly,
        decreases fs@.len() - i,
    {
        if !matches!(fs[i].access, crate::model::Access::WriteOnly) {
            return false;
        }
        i = i + 1;
    }
    true
}

/// Emits the bindings of a register word at path `p`.
fn emit_reg_item(out: &mut Vec<u8>, p: &Vec<u8>, w: u32, fs: &Vec<Field>)
    requires
        forall|i: int| 0 <= i < fs@.len() ==> field_ready(#[trigger] fs@[i], w),
    ensures
        final(out)@ == old(out)@ + reg_item(p@, w, fs@),
{
    let wo = write_only(fs);
    let ghost mut acc: Seq<u8> = Seq::empty();
    put(out, "\npub struct ");
    proof { acc = lit("\npub struct "); }
    put_bytes(out, p);
    proof { lemma_grow(old(out)@, acc, p@); acc = acc + p@; }
    put(out, "_Update {\n    addr: usize,\n}\n\nimpl ");
    proof { lemma_grow(old(out)@, acc, lit("_Update {\n    addr: usize,\n}\n\nimpl ")); acc = acc + lit("_Update {\n    addr: usize,\n}\n\nimpl "); }
    put_bytes(out, p);
    proof { lemma_grow(old(out)@, acc, p@); acc = acc + p@; }
    put(out, "_Update {\n    pub fn get(&self) -> ");
    proof { lemma_grow(old(out)@, acc, lit("_Update {\n    pub fn get(&self) -> ")); acc = acc + lit("_Update {\n    pub fn get(&self) -> "); }
    put_bytes(out, p);
    proof { lemma_grow(old(out)@, acc, p@); acc = acc + p@; }
    put(out, "_Get {\n        ");
    proof { lemma_grow(old(out)@, acc, lit("_Get {\n        ")); acc = acc + lit("_Get {\n        "); }
    put_bytes(out, p);
    proof { lemma_grow(old(out)@, acc, p@); acc = acc + p@; }
    put(out, "_Get { value: mmio::read::<");
    proof { lemma_grow(old(out)@, acc, lit("_Get { value: mmio::read::<")); acc = acc + lit("_Get { value: mmio::read::<"); }
    emit_prim_ty(out, w);
    proof { lemma_grow(old(out)@, acc, prim_ty(w)); acc = acc + prim_ty(w); }
    put(out, ">(self.addr) }\n    }\n\n    pub fn set(&self, value: ");
    proof { lemma_grow(old(out)@, acc, lit(">(self.addr) }\n    }\n\n    pub fn set(&self, value: ")); acc = acc + lit(">(self.addr) }\n    }\n\n    pub fn set(&self, value: "); }
    emit_prim_ty(out, w);
    proof { lemma_grow(old(out)@, acc, prim_ty(w)); acc = acc + prim_ty(w); }
    put(out, ") -> &Self {\n        mmio::write::<");
    proof { lemma_grow(old(out)@, acc, lit(") -> &Self {\n        mmio::write::<")); acc = acc + lit(") -> &Self {\n        mmio::write::<"); }
    emit_prim_ty(out, w);
    proof { lemma_grow(old(out)@, acc, prim_ty(w)); acc = acc + prim_ty(w); }
    put(out, ">(self.addr, value);\n        self\n    }\n");
    proof { lemma_grow(old(out)@, acc, lit(">(self.addr, value);\n        self\n    }\n")); acc = acc + lit(">(self.addr, value);\n        self\n    }\n"); }
    emit_setters(out, p, w, wo, fs);
    proof { lemma_grow(old(out)@, acc, setters(p@, w, all_write_only(fs@), fs@)); acc = acc + setters(p@, w, all_write_only(fs@), fs@); }
    put(out, "}\n\npub struct ");
    proof { lemma_grow(old(out)@, acc, lit("}\n\npub struct ")); acc = acc + lit("}\n\npub struct "); }
    put_bytes(out, p);
    proof { lemma_grow(old(out)@, acc, p@); acc = acc + p@; }
    put(out, "_Get {\n    value: ");
    proof { lemma_grow(old(out)@, acc, lit("_Get {\n    value: ")); acc = acc + lit("_Get {\n    value: "); }
    emit_prim_ty(out, w);
    proof { lemma_grow(old(out)@, acc, prim_ty(w)); acc = acc + prim_ty(w); }
    put(out, ",\n}\n\nimpl ");
    proof { lemma_grow(old(out)@, acc, lit(",\n}\n\nimpl ")); acc = acc + lit(",\n}\n\nimpl "); }
    put_bytes(out, p);
    proof { lemma_grow(old(out)@, acc, p@); acc = acc + p@; }
    put(out, "_Get {\n    pub fn raw(&self) -> ");
    proof { lemma_grow(old(out)@, acc, lit("_Get {\n    pub fn raw(&self) -> ")); acc = acc + lit("_Get {\n    pub fn raw(&self) -> "); }
    emit_prim_ty(out, w);
    proof { lemma_grow(old(out)@, acc, prim_ty(w)); acc = acc + prim_ty(w); }
    put(out, " {\n        self.value\n    }\n");
    proof { lemma_grow(old(out)@, acc, lit(" {\n        self.value\n    }\n")); acc = acc + lit(" {\n        self.value\n    }\n"); }
    emit_getters(out, p, w, fs);
    proof { lemma_grow(old(out)@, acc, getters(p@, w, fs@)); acc = acc + getters(p@, w, fs@); }
    put(out, "}\n");
    proof { lemma_grow(old(out)@, acc, lit("}\n")); acc = acc + lit("}\n"); }
    emit_enum_items(out, p, w, fs);
    proof { lemma_grow(old(out)@, acc, enum_items(p@, w, fs@)); acc = acc + enum_items(p@, w, fs@); }
}

/// A register word whose fields are ready to emit.
pub open spec fn reg_ready(e: Reg) -> bool {
    match e.ty {
        RegType::Prim(w, fs) => forall|i: int| 0 <= i < fs@.len() ==> field_ready(#[trigger] fs@[i], w),
        RegType::Group(_) => true,
    }
}

proof fn lemma_valid_ready(e: Reg)
    requires
        crate::validate::prim_valid(e),
    ensures
        reg_ready(e),
{
}

fn emit_accessor(out: &mut Vec<u8>, q: &Vec<u8>, e: &Reg)
    ensures
        final(out)@ == old(out)@ + entry_accessor(q@, *e),
{
    let pth = name_path(q, &e.name);
    let ghost mut acc: Seq<u8> = Seq::empty();
    match &e.ty {
        RegType::Prim(w, _) => {
            if !e.is_array {
                put(out, "    pub fn ");
                proof { acc = lit("    pub fn "); }
                put_bytes(out, &e.name);
                proof { lemma_grow(old(out)@, acc, e.name@); acc = acc + e.name@; }
                put(out, "(&self) -> ");
                proof { lemma_grow(old(out)@, acc, lit("(&self) -> ")); acc = acc + lit("(&self) -> "); }
                put_bytes(out, &pth);
                proof { lemma_grow(old(out)@, acc, sub_path(q@, e.name@)); acc = acc + sub_path(q@, e.name@); }
                put(out, "_Update {\n        ");
                proof { lemma_grow(old(out)@, acc, lit("_Update {\n        ")); acc = acc + lit("_Update {\n        "); }
                put_bytes(out, &pth);
                proof { lemma_grow(old(out)@, acc, sub_path(q@, e.name@)); acc = acc + sub_path(q@, e.name@); }
                put(out, "_Update { addr: self.base + ");
                proof { lemma_grow(old(out)@, acc, lit("_Update { addr: self.base + ")); acc = acc + lit("_Update { addr: self.base + "); }
                put_dec(out, e.offset as u128);
                proof { lemma_grow(old(out)@, acc, dec(e.offset as nat)); acc = acc + dec(e.offset as nat); }
                put(out, " }\n    }\n");
                proof { lemma_grow(old(out)@, acc, lit(" }\n    }\n")); acc = acc + lit(" }\n    }\n"); }
            } else {
                put(out, "    pub fn ");
                proof { acc = lit("    pub fn "); }
                put_bytes(out, &e.name);
                proof { lemma_grow(old(out)@, acc, e.name@); acc = acc + e.name@; }
                put(out, "(&self, index: usize) -> Result<");
                proof { lemma_grow(old(out)@, acc, lit("(&self, index: usize) -> Result<")); acc = acc + lit("(&self, index: usize) -> Result<"); }
                put_bytes(out, &pth);
                proof { lemma_grow(old(out)@, acc, sub_path(q@, e.name@)); acc = acc + sub_path(q@, e.name@); }
                put(out, "_Update, IndexError> {\n");
                proof { lemma_grow(old(out)@, acc, lit("_Update, IndexError> {\n")); acc = acc + lit("_Update, IndexError> {\n"); }
                emit_check_index(out, e.count);
                proof { lemma_grow(old(out)@, acc, check_index(e.count as nat)); acc = acc + check_index(e.count as nat); }
                put(out, "        Ok(");
                proof { lemma_grow(old(out)@, acc, lit("        Ok(")); acc = acc + lit("        Ok("); }
                put_bytes(out, &pth);
                proof { lemma_grow(old(out)@, acc, sub_path(q@, e.name@)); acc = acc + sub_path(q@, e.name@); }
                put(out, "_Update { addr: self.base + ");
                proof { lemma_grow(old(out)@, acc, lit("_Update { addr: self.base + ")); acc = acc + lit("_Update { addr: self.base + "); }
                put_dec(out, e.offset as u128);
                proof { lemma_grow(old(out)@, acc, dec(e.offset as nat)); acc = acc + dec(e.offset as nat); }
                put(out, " + index * ");
                proof { lemma_grow(old(out)@, acc, lit(" + index * ")); acc = acc + lit(" + index * "); }
                put_dec(out, (*w / 8) as u128);
                proof { lemma_grow(old(out)@, acc, dec((*w / 8) as nat)); acc = acc + dec((*w / 8) as nat); }
                put(out, " })\n    }\n");
                proof { lemma_grow(old(out)@, acc, lit(" })\n    }\n")); acc = acc + lit(" })\n    }\n"); }
            }
        },
        RegType::Group(regs) => {
            let st = crate::validate::stride(regs);
            put(out, "    pub fn ");
            proof { lemma_grow(old(out)@, acc, lit("    pub fn ")); acc = acc + lit("    pub fn "); }
            put_bytes(out, &e.name);
            proof { lemma_grow(old(out)@, acc, e.name@); acc = acc + e.name@; }
            put(out, "(&self, index: usize) -> Result<");
            proof { lemma_grow(old(out)@, acc, lit("(&self, index: usize) -> Result<")); acc = acc + lit("(&self, index: usize) -> Result<"); }
            put_bytes(out, &pth);
            proof { lemma_grow(old(out)@, acc, sub_path(q@, e.name@)); acc = acc + sub_path(q@, e.name@); }
            put(out, ", IndexError> {\n");
            proof { lemma_grow(old(out)@, acc, lit(", IndexError> {\n")); acc = acc + lit(", IndexError> {\n"); }
            emit_check_index(out, e.count);
            proof { lemma_grow(old(out)@, acc, check_index(e.count as nat)); acc = acc + check_index(e.count as nat); }
            put(out, "        Ok(");
            proof { lemma_grow(old(out)@, acc, lit("        Ok(")); acc = acc + lit("        Ok("); }
            put_bytes(out, &pth);
            proof { lemma_grow(old(out)@, acc, sub_path(q@, e.name@)); acc = acc + sub_path(q@, e.name@); }
            put(out, " { base: self.base + ");
            proof { lemma_grow(old(out)@, acc, lit(" { base: self.base + ")); acc = acc + lit(" { base: self.base + "); }
            put_dec(out, e.offset as u128);
            proof { lemma_grow(old(out)@, acc, dec(e.offset as nat)); acc = acc + dec(e.offset as nat); }
            put(out, " + index * ");
            proof { lemma_grow(old(out)@, acc, lit(" + index * ")); acc = acc + lit(" + index * "); }
            put_dec(out, st);
            proof { lemma_grow(old(out)@, acc, dec(group_stride(regs@) as nat)); acc = acc + dec(group_stride(regs@) as nat); }
            put(out, " })\n    }\n");
            proof { lemma_grow(old(out)@, acc, lit(" })\n    }\n")); acc = acc + lit(" })\n    }\n"); }
        },
    }
}

fn emit_accessors(out: &mut Vec<u8>, q: &Vec<u8>, es: &Vec<Reg>)
    ensures
        final(out)@ == old(out)@ + accessors(q@, es@),
{
    let mut i: usize = 0;
    proof {
        lemma_empty_right(out@);
    }
    while i < es.len()
        invariant
            0 <= i <= es@.len(),
            out@ == old(out)@ + accessors(q@, es@.subrange(0, i as int)),
        decreases es@.len() - i,
    {
        proof {
            lemma_prefix_step(es@, i as int);
        }
        emit_accessor(out, q, &es[i]);
        proof {
            lemma_grow(old(out)@, accessors(q@, es@.subrange(0, i as int)), entry_accessor(q@, es@[i as int]));
        }
        i = i + 1;
    }
    proof {
        lemma_whole(es@);
    }
}

fn emit_sub_items(out: &mut Vec<u8>, q: &Vec<u8>, es: &Vec<Reg>)
    requires
        forall|i: int| 0 <= i < es@.len() ==> reg_ready(#[trigger] es@[i]),
    ensures
        final(out)@ == old(out)@ + sub_items(q@, es@),
{
    let mut i: usize = 0;
    proof {
        lemma_empty_right(out@);
    }
    while i < es.len()
        invariant
            0 <= i <= es@.len(),
            forall|k: int| 0 <= k < es@.len() ==> reg_ready(#[trigger] es@[k]),
            out@ == old(out)@ + sub_items(q@, es@.subrange(0, i as int)),
        decreases es@.len() - i,
    {
        proof {
            lemma_prefix_step(es@, i as int);
            assert(reg_ready(es@[i as int]));
        }
        match &es[i].ty {
            RegType::Prim(w, fs) => {
                let pth = name_path(q, &es[i].name);
                emit_reg_item(out, &pth, *w, fs);
            },
            RegType::Group(_) => {
                proof {
                    lemma_empty_right(out@);
                }
            },
        }
        proof {
            lemma_grow(old(out)@, sub_items(q@, es@.subrange(0, i as int)), sub_item(q@, es@[i as int]));
        }
        i = i + 1;
    }
    proof {
        lemma_whole(es@);
    }
}

fn emit_container_open(out: &mut Vec<u8>, p: &Vec<u8>, at: bool)
    ensures
        final(out)@ == old(out)@ + (lit("\npub struct ") + p@ + lit(" {\n    base: usize,\n}\n\nimpl ")
            + p@ + lit(" {\n") + if at {
            lit("    pub const fn at(base: usize) -> ") + p@ + lit(" {\n        ") + p@ + lit(
                " { base }\n    }\n",
            )
        } else {
            seq![]
        }),
{
    let ghost mut acc: Seq<u8> = Seq::empty();
    put(out, "\npub struct ");
    proof { acc = lit("\npub struct "); }
    put_bytes(out, p);
    proof { lemma_grow(old(out)@, acc, p@); acc = acc + p@; }
    put(out, " {\n    base: usize,\n}\n\nimpl ");
    proof { lemma_grow(old(out)@, acc, lit(" {\n    base: usize,\n}\n\nimpl ")); acc = acc + lit(" {\n    base: usize,\n}\n\nimpl "); }
    put_bytes(out, p);
    proof { lemma_grow(old(out)@, acc, p@); acc = acc + p@; }
    put(out, " {\n");
    proof { lemma_grow(old(out)@, acc, lit(" {\n")); acc = acc + lit(" {\n"); }
    if at {
        let ghost head = acc;
        put(out, "    pub const fn at(base: usize) -> ");
        put_bytes(out, p);
        put(out, " {\n        ");
        put_bytes(out, p);
        put(out, " { base }\n    }\n");
        proof {
            assert(out@ =~= old(out)@ + (head + (lit("    pub const fn at(base: usize) -> ") + p@ + lit(
                " {\n        ",
            ) + p@ + lit(" { base }\n    }\n"))));
        }
    } else {
        proof {
            lemma_empty_right(acc);
        }
    }
}

/// Emits the items of an entry of the block.
fn emit_entry_item(out: &mut Vec<u8>, q: &Vec<u8>, e: &Reg)
    requires
        crate::validate::entry_valid(*e),
    ensures
        final(out)@ == old(out)@ + entry_item(q@, *e),
{
    let pth = name_path(q, &e.name);
    match &e.ty {
        RegType::Prim(w, fs) => {
            proof {
                lemma_valid_ready(*e);
            }
            emit_reg_item(out, &pth, *w, fs);
        },
        RegType::Group(regs) => {
            proof {
                assert forall|i: int| 0 <= i < regs@.len() implies reg_ready(#[trigger] regs@[i]) by {
                    lemma_valid_ready(regs@[i]);
                }
            }
            let ghost mut acc: Seq<u8> = Seq::empty();
            emit_container_open(out, &pth, false);
            proof { acc = (lit("\npub struct ") + pth@ + lit(" {\n    base: usize,\n}\n\nimpl ") + pth@ + lit(" {\n") + seq![]); }
            emit_accessors(out, &pth, regs);
            proof { lemma_grow(old(out)@, acc, accessors(pth@, regs@)); acc = acc + accessors(pth@, regs@); }
            put(out, "}\n");
            proof { lemma_grow(old(out)@, acc, lit("}\n")); acc = acc + lit("}\n"); }
            emit_sub_items(out, &pth, regs);
            proof { lemma_grow(old(out)@, acc, sub_items(pth@, regs@)); acc = acc + sub_items(pth@, regs@); }
        },
    }
}

fn emit_entry_items(out: &mut Vec<u8>, q: &Vec<u8>, es: &Vec<Reg>)
    requires
        forall|i: int| 0 <= i < es@.len() ==> crate::validate::entry_valid(#[trigger] es@[i]),
    ensures
        final(out)@ == old(out)@ + entry_items(q@, es@),
{
    let mut i: usize = 0;
    proof {
        lemma_empty_right(out@);
    }
    while i < es.len()
        invariant
            0 <= i <= es@.len(),
            forall|k: int| 0 <= k < es@.len() ==> crate::validate::entry_valid(#[trigger] es@[k]),
            out@ == old(out)@ + entry_items(q@, es@.subrange(0, i as int)),
        decreases es@.len() - i,
    {
        proof {
            lemma_prefix_step(es@, i as int);
        }
        emit_entry_item(out, q, &es[i]);
        proof {
            lemma_grow(old(out)@, entry_items(q@, es@.subrange(0, i as int)), entry_item(q@, es@[i as int]));
        }
        i = i + 1;
    }
    proof {
        lemma_whole(es@);
    }
}

/// The source text of a validated register block: the error types, the
/// block's struct with an accessor per entry, and the bindings of every
/// register; a pure function of the block.
#[verifier::spinoff_prover]
pub fn generate(b: &RegBlock) -> (r: Vec<u8>)
    requires
        block_valid(*b),
    ensures
        r@ == block_text(*b),
{
    let mut out: Vec<u8> = Vec::new();
    put(&mut out, "#[derive(Clone, Copy, Debug, PartialEq, Eq)]\npub struct IndexError;\n\n#[derive(Clone, Copy, Debug, PartialEq, Eq)]\npub struct DecodeError {\n    pub code: u32,\n}\n");
    let ghost h = out@;
    emit_container_open(&mut out, &b.name, true);
    let ghost c = out@;
    emit_accessors(&mut out, &b.name, &b.entries);
    put(&mut out, "}\n");
    emit_entry_items(&mut out, &b.name, &b.entries);
    proof {
        assert(h == header());
        assert(out@ =~= block_text(*b));
    }
    out
}

/// Parses, validates and renders a specification. A text the grammar
/// accepts, whose tree is valid, gives the rendering of that tree; any
/// other gives diagnostics and no text: one syntax error where the grammar
/// fails, else every layout error of the tree, among them each pair of
/// overlapping fields with both spans. Every diagnostic cites spans of the
/// specification.
pub fn compile(src: &[u8]) -> (r: Result<Vec<u8>, Vec<Diagnostic>>)
    ensures
        r matches Ok(t) ==> block_syn(src@) && exists|b: RegBlock|
            block_is(b, parsed(src@)) && block_valid(b) && t@ == block_text(b),
        (block_syn(src@) && forall|b: RegBlock| block_is(b, parsed(src@)) ==> block_valid(b)) ==> r is Ok,
        !block_syn(src@) ==> (r matches Err(ds) && ds@.len() == 1 && ds@[0].kind is Syntax),
        r matches Err(ds) ==> ds@.len() > 0 && crate::validate::all_in(ds@, src@.len()),
        r matches Err(ds) ==> !block_syn(src@) || exists|b: RegBlock|
            block_is(b, parsed(src@)) && !block_valid(b) && forall|e: int|
                0 <= e < b.entries@.len() ==> entry_overlaps_reported(#[trigger] b.entries@[e], ds@),
{
    match crate::parse::parse(src) {
        Err(d) => {
            let mut ds: Vec<Diagnostic> = Vec::new();
            ds.push(d);
            proof {
                assert(ds@[0] == d);
            }
            Err(ds)
        },
        Ok(b) => {
            let ghost pb = b;
            match crate::validate::validate(b) {
                Ok(v) => {
                    let t = generate(&v);
                    proof {
                        assert(block_is(v, parsed(src@)) && block_valid(v) && t@ == block_text(v));
                    }
                    Ok(t)
                },
                Err(ds) => {
                    proof {
                        assert(block_is(pb, parsed(src@)) && !block_valid(pb));
                    }
                    Err(ds)
                },
            }
        },
    }
}

} // verus!
