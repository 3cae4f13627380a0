//! The layout validator: every hardware invariant of a register block is
//! checked on its own, and every violation is reported.
use crate::diag::{Diagnostic, ErrorKind, LayoutKind};
use crate::layout::RegWidth;
use crate::model::{entry_size, field_spans_in, group_stride, inner_end, prim_size, reg_spans_in, span_in, Field, Reg, RegBlock, RegType, Span};
use vstd::arithmetic::power2::pow2;
use vstd::bits::{lemma_u64_pow2_no_overflow, lemma_u64_shl_is_mul};
use vstd::prelude::*;

verus! {

/// `code` fits in a field `width` bits wide.
pub open spec fn code_fits(code: u32, width: nat) -> bool {
    width >= 32 || (code as nat) < pow2(width)
}

/// A field lies in a register of `bits` bits, its range splits evenly into
/// its elements, and its variant codes fit an element and are distinct.
pub open spec fn field_valid(f: Field, bits: u32) -> bool {
    &&& f.spec_high() < bits
    &&& f.count >= 1
    &&& f.spec_span_bits() % (f.count as nat) == 0
    &&& forall|i: int|
        0 <= i < f.variants@.len() ==> code_fits(#[trigger] f.variants@[i].code, f.spec_elem_width())
    &&& forall|i: int, j: int|
        0 <= i < j < f.variants@.len() ==> f.variants@[i].code != f.variants@[j].code
}

/// Two fields share a bit.
pub open spec fn fields_overlap(a: Field, b: Field) -> bool {
    a.spec_low() <= b.spec_high() && b.spec_low() <= a.spec_high()
}

pub open spec fn fields_disjoint(fs: Seq<Field>) -> bool {
    forall|i: int, j: int| 0 <= i < j < fs.len() ==> !fields_overlap(fs[i], fs[j])
}

/// A register word: supported width, at least one element, valid fields
/// that share no bit.
pub open spec fn prim_valid(r: Reg) -> bool {
    match r.ty {
        RegType::Prim(w, fs) => {
            &&& RegWidth::from_bits_spec(w) is Some
            &&& r.count >= 1
            &&& forall|i: int| 0 <= i < fs@.len() ==> field_valid(#[trigger] fs@[i], w)
            &&& fields_disjoint(fs@)
        },
        RegType::Group(_) => false,
    }
}

/// Two entries share a byte.
pub open spec fn entries_overlap(a: Reg, b: Reg) -> bool {
    a.offset < b.offset + entry_size(b) && b.offset < a.offset + entry_size(a)
}

pub open spec fn entries_disjoint(rs: Seq<Reg>) -> bool {
    forall|i: int, j: int| 0 <= i < j < rs.len() ==> !entries_overlap(rs[i], rs[j])
}

/// An entry of a block: a valid register, or a group of at least one
/// element whose sub-registers are valid registers that share no byte.
pub open spec fn entry_valid(r: Reg) -> bool {
    match r.ty {
        RegType::Prim(_, _) => prim_valid(r),
        RegType::Group(regs) => {
            &&& r.count >= 1
            &&& forall|i: int| 0 <= i < regs@.len() ==> prim_valid(#[trigger] regs@[i])
            &&& entries_disjoint(regs@)
        },
    }
}

/// Every entry is valid and no two entries share a byte.
pub open spec fn block_valid(b: RegBlock) -> bool {
    &&& forall|i: int| 0 <= i < b.entries@.len() ==> entry_valid(#[trigger] b.entries@[i])
    &&& entries_disjoint(b.entries@)
}

/// `new` is `old` with zero or more diagnostics appended.
pub open spec fn appended(old: Seq<Diagnostic>, new: Seq<Diagnostic>) -> bool {
    new.len() >= old.len() && new.subrange(0, old.len() as int) == old
}

/// The spans a diagnostic cites lie within a text of `len` bytes.
pub open spec fn diag_in(d: Diagnostic, len: nat) -> bool {
    span_in(d.span, len) && (d.other matches Some(o) ==> span_in(o, len))
}

pub open spec fn all_in(ds: Seq<Diagnostic>, len: nat) -> bool {
    forall|i: int| 0 <= i < ds.len() ==> diag_in(#[trigger] ds[i], len)
}

/// `d` is among `ds`.
pub open spec fn reported(ds: Seq<Diagnostic>, d: Diagnostic) -> bool {
    exists|k: int| 0 <= k < ds.len() && ds[k] == d
}

pub open spec fn layout_diag(kind: LayoutKind, span: Span, other: Option<Span>) -> Diagnostic {
    Diagnostic { kind: ErrorKind::Layout(kind), span, other }
}

/// Each violated check on the placement of field `f` in a word of `bits`
/// bits has its diagnostic, citing the field, in `ds`.
pub open spec fn shape_reported(f: Field, bits: u32, ds: Seq<Diagnostic>) -> bool {
    &&& f.spec_high() >= bits ==> reported(ds, layout_diag(LayoutKind::FieldOutOfRange, f.span, None))
    &&& f.count == 0 ==> reported(ds, layout_diag(LayoutKind::ZeroCount, f.span, None))
    &&& (f.count >= 1 && f.spec_span_bits() % (f.count as nat) != 0) ==> reported(
        ds,
        layout_diag(LayoutKind::FieldCountMismatch, f.span, None),
    )
}

/// Each of the first `n` variants whose code does not fit has its
/// diagnostic, citing the variant and the field, in `ds`.
pub open spec fn codes_reported(f: Field, ds: Seq<Diagnostic>, n: int) -> bool {
    forall|i: int|
        0 <= i < n && !code_fits(#[trigger] f.variants@[i].code, f.spec_elem_width()) ==> reported(
            ds,
            layout_diag(LayoutKind::CodeTooLarge, f.variants@[i].span, Some(f.span)),
        )
}

/// Each pair among the first `n` variants with the same code has its
/// diagnostic, citing both, in `ds`.
pub open spec fn dups_reported(f: Field, ds: Seq<Diagnostic>, n: int) -> bool {
    forall|a: int, b: int|
        0 <= a < b < n && f.variants@[a].code == f.variants@[b].code ==> reported(
            ds,
            #[trigger] layout_diag(LayoutKind::DuplicateCode, f.variants@[b].span, Some(f.variants@[a].span)),
        )
}

/// The diagnostic for two overlapping fields, citing both.
pub open spec fn overlap_diagnostic(a: Field, b: Field) -> Diagnostic {
    Diagnostic { kind: ErrorKind::Layout(LayoutKind::FieldOverlap), span: b.span, other: Some(a.span) }
}

fn layout_error(kind: LayoutKind, span: Span, other: Option<Span>) -> (r: Diagnostic)
    ensures
        r == (Diagnostic { kind: ErrorKind::Layout(kind), span, other }),
{
    Diagnostic { kind: ErrorKind::Layout(kind), span, other }
}

fn fits(code: u32, width: u64) -> (r: bool)
    ensures
        r == code_fits(code, width as nat),
{
    if width >= 32 {
        true
    } else {
        proof {
            lemma_u64_pow2_no_overflow(width as nat);
            lemma_u64_shl_is_mul(1u64, width);
        }
        (code as u64) < (1u64 << width)
    }
}

proof fn lemma_appended_trans(a: Seq<Diagnostic>, b: Seq<Diagnostic>, c: Seq<Diagnostic>)
    requires
        appended(a, b),
        appended(b, c),
    ensures
        appended(a, c),
{
    assert(c.subrange(0, a.len() as int) =~= c.subrange(0, b.len() as int).subrange(0, a.len() as int));
}

/// Appends one diagnostic.
fn report(out: &mut Vec<Diagnostic>, d: Diagnostic)
    ensures
        final(out)@ == old(out)@.push(d),
        forall|s: Seq<Diagnostic>| appended(s, old(out)@) ==> #[trigger] appended(s, final(out)@),
        forall|len: nat| all_in(old(out)@, len) && diag_in(d, len) ==> #[trigger] all_in(final(out)@, len),
        reported(final(out)@, d),
        forall|d2: Diagnostic| reported(old(out)@, d2) ==> #[trigger] reported(final(out)@, d2),
{
    let ghost before = out@;
    out.push(d);
    proof {
        assert(out@[before.len() as int] == d);
        assert forall|d2: Diagnostic| reported(before, d2) implies #[trigger] reported(out@, d2) by {
            let k = choose|k: int| 0 <= k < before.len() && before[k] == d2;
            assert(out@[k] == d2);
        }
    }
    assert forall|s: Seq<Diagnostic>| appended(s, before) implies #[trigger] appended(s, out@) by {
        assert(out@.subrange(0, s.len() as int) =~= before.subrange(0, s.len() as int));
    }
}

/// Checks one field of a register of `bits` bits, appending a diagnostic
/// for each violation; none is appended exactly when the field is valid.
pub fn check_field(f: &Field, bits: u32, out: &mut Vec<Diagnostic>)
    ensures
        appended(old(out)@, final(out)@),
        final(out)@.len() == old(out)@.len() <==> field_valid(*f, bits),
        forall|len: nat| field_spans_in(*f, len) && all_in(old(out)@, len) ==> #[trigger] all_in(final(out)@, len),
        shape_reported(*f, bits, final(out)@),
        codes_reported(*f, final(out)@, f.variants@.len() as int),
        dups_reported(*f, final(out)@, f.variants@.len() as int),
{
    proof {
        assert(out@.subrange(0, out@.len() as int) =~= out@);
    }
    if f.high_bit() >= bits {
        report(out, layout_error(LayoutKind::FieldOutOfRange, f.span, None));
    }
    if f.count == 0 {
        report(out, layout_error(LayoutKind::ZeroCount, f.span, None));
    } else if f.span_bits() % (f.count as u64) != 0 {
        report(out, layout_error(LayoutKind::FieldCountMismatch, f.span, None));
    }
    let ghost n1 = out@.len();
    let ew = f.elem_width();
    let mut i: usize = 0;
    while i < f.variants.len()
        invariant
            0 <= i <= f.variants@.len(),
            ew == f.spec_elem_width(),
            appended(old(out)@, out@),
            out@.len() >= n1,
            out@.len() == n1 <==> forall|k: int| 0 <= k < i ==> code_fits(#[trigger] f.variants@[k].code, f.spec_elem_width()),
            forall|len: nat| field_spans_in(*f, len) && all_in(old(out)@, len) ==> #[trigger] all_in(out@, len),
            shape_reported(*f, bits, out@),
            codes_reported(*f, out@, i as int),
        decreases f.variants@.len() - i,
    {
        if !fits(f.variants[i].code, ew) {
            let d = layout_error(LayoutKind::CodeTooLarge, f.variants[i].span, Some(f.span));
            report(out, d);
        }
        i = i + 1;
    }
    let ghost n2 = out@.len();
    let mut i: usize = 0;
    while i < f.variants.len()
        invariant
            0 <= i <= f.variants@.len(),
            appended(old(out)@, out@),
            out@.len() >= n2,
            out@.len() == n2 <==> forall|a: int, b: int| 0 <= a < b < i ==> f.variants@[a].code != f.variants@[b].code,
            forall|len: nat| field_spans_in(*f, len) && all_in(old(out)@, len) ==> #[trigger] all_in(out@, len),
            shape_reported(*f, bits, out@),
            codes_reported(*f, out@, f.variants@.len() as int),
            dups_reported(*f, out@, i as int),
        decreases f.variants@.len() - i,
    {
        let ghost m0 = out@.len();
        let mut j: usize = 0;
        while j < i
            invariant
                0 <= j <= i < f.variants@.len(),
                appended(old(out)@, out@),
                out@.len() >= m0,
                m0 >= n2,
                m0 == n2 <==> forall|a: int, b: int| 0 <= a < b < i ==> f.variants@[a].code != f.variants@[b].code,
                out@.len() == m0 <==> forall|a: int| 0 <= a < j ==> f.variants@[a].code != f.variants@[i as int].code,
                forall|len: nat| field_spans_in(*f, len) && all_in(old(out)@, len) ==> #[trigger] all_in(out@, len),
                shape_reported(*f, bits, out@),
                codes_reported(*f, out@, f.variants@.len() as int),
                dups_reported(*f, out@, i as int),
                forall|a: int| 0 <= a < j && f.variants@[a].code == f.variants@[i as int].code ==> reported(
                    out@,
                    #[trigger] layout_diag(LayoutKind::DuplicateCode, f.variants@[i as int].span, Some(f.variants@[a].span)),
                ),
            decreases i - j,
        {
            if f.variants[j].code == f.variants[i].code {
                let d = layout_error(LayoutKind::DuplicateCode, f.variants[i].span, Some(f.variants[j].span));
                report(out, d);
            }
            j = j + 1;
        }
        proof {
            if out@.len() == n2 {
                assert forall|a: int, b: int| 0 <= a < b < i + 1 implies f.variants@[a].code != f.variants@[b].code by {
                    if b == i {
                    } else {
                    }
                }
            } else {
                if m0 == n2 {
                    let a = choose|a: int| 0 <= a < i && !(f.variants@[a].code != f.variants@[i as int].code);
                    assert(0 <= a < i as int + 1);
                }
            }
        }
        i = i + 1;
    }
}

/// Checks the fields of a register word of `bits` bits and that no two of
/// them share a bit: every overlapping pair is reported with both spans.
pub fn check_fields(fs: &Vec<Field>, bits: u32, out: &mut Vec<Diagnostic>)
    ensures
        appended(old(out)@, final(out)@),
        final(out)@.len() == old(out)@.len() <==> ((forall|i: int|
            0 <= i < fs@.len() ==> field_valid(#[trigger] fs@[i], bits)) && fields_disjoint(fs@)),
        forall|len: nat| (forall|k: int| 0 <= k < fs@.len() ==> field_spans_in(#[trigger] fs@[k], len)) && all_in(old(out)@, len) ==> #[trigger] all_in(final(out)@, len),
        forall|i: int, j: int|
            0 <= i < j < fs@.len() && fields_overlap(fs@[i], fs@[j]) ==> exists|k: int|
                old(out)@.len() <= k < final(out)@.len() && #[trigger] final(out)@[k]
                    == overlap_diagnostic(fs@[i], fs@[j]),
{
    proof {
        assert(out@.subrange(0, out@.len() as int) =~= out@);
    }
    let ghost n0 = out@.len();
    let mut i: usize = 0;
    while i < fs.len()
        invariant
            0 <= i <= fs@.len(),
            appended(old(out)@, out@),
            out@.len() >= n0,
            out@.len() == n0 <==> forall|k: int| 0 <= k < i ==> field_valid(#[trigger] fs@[k], bits),
            forall|len: nat| (forall|k: int| 0 <= k < fs@.len() ==> field_spans_in(#[trigger] fs@[k], len)) && all_in(old(out)@, len) ==> #[trigger] all_in(out@, len),
        decreases fs@.len() - i,
    {
        let ghost before = out@;
        check_field(&fs[i], bits, out);
        proof {
            lemma_appended_trans(old(out)@, before, out@);
        }
        i = i + 1;
    }
    let ghost n1 = out@.len();
    let mut j: usize = 0;
    while j < fs.len()
        invariant
            0 <= j <= fs@.len(),
            appended(old(out)@, out@),
            out@.len() >= n1,
            n1 >= n0,
            n1 == n0 <==> forall|k: int| 0 <= k < fs@.len() ==> field_valid(#[trigger] fs@[k], bits),
            out@.len() == n1 <==> forall|a: int, b: int| 0 <= a < b < j ==> !fields_overlap(fs@[a], fs@[b]),
            forall|len: nat| (forall|k: int| 0 <= k < fs@.len() ==> field_spans_in(#[trigger] fs@[k], len)) && all_in(old(out)@, len) ==> #[trigger] all_in(out@, len),
            forall|a: int, b: int|
                0 <= a < b < j && fields_overlap(fs@[a], fs@[b]) ==> exists|k: int|
                    n0 <= k < out@.len() && #[trigger] out@[k] == overlap_diagnostic(fs@[a], fs@[b]),
        decreases fs@.len() - j,
    {
        let ghost m0 = out@.len();
        let lo_j = fs[j].low_bit();
        let hi_j = fs[j].high_bit();
        let mut i: usize = 0;
        while i < j
            invariant
                0 <= i <= j < fs@.len(),
                lo_j == fs@[j as int].spec_low(),
                hi_j == fs@[j as int].spec_high(),
                appended(old(out)@, out@),
                out@.len() >= m0,
                m0 >= n1,
                n1 >= n0,
                m0 == n1 <==> forall|a: int, b: int| 0 <= a < b < j ==> !fields_overlap(fs@[a], fs@[b]),
                out@.len() == m0 <==> forall|a: int| 0 <= a < i ==> !fields_overlap(fs@[a], fs@[j as int]),
                forall|len: nat| (forall|k: int| 0 <= k < fs@.len() ==> field_spans_in(#[trigger] fs@[k], len)) && all_in(old(out)@, len) ==> #[trigger] all_in(out@, len),
                forall|a: int, b: int|
                    0 <= a < b < j && fields_overlap(fs@[a], fs@[b]) ==> exists|k: int|
                        n0 <= k < out@.len() && #[trigger] out@[k] == overlap_diagnostic(fs@[a], fs@[b]),
                forall|a: int|
                    0 <= a < i && fields_overlap(fs@[a], fs@[j as int]) ==> exists|k: int|
                        n0 <= k < out@.len() && #[trigger] out@[k] == overlap_diagnostic(fs@[a], fs@[j as int]),
            decreases j - i,
        {
            if fs[i].low_bit() <= hi_j && lo_j <= fs[i].high_bit() {
                let d = layout_error(LayoutKind::FieldOverlap, fs[j].span, Some(fs[i].span));
                let ghost before = out@;
                report(out, d);
                proof {
                    assert(out@[before.len() as int] == overlap_diagnostic(fs@[i as int], fs@[j as int]));
                    assert forall|a: int, b: int|
                        0 <= a < b < j && fields_overlap(fs@[a], fs@[b]) implies exists|k: int|
                            n0 <= k < out@.len() && #[trigger] out@[k] == overlap_diagnostic(fs@[a], fs@[b]) by {
                        let k = choose|k: int| n0 <= k < before.len() && #[trigger] before[k] == overlap_diagnostic(fs@[a], fs@[b]);
                        assert(out@[k] == before[k]);
                    }
                    assert forall|a: int|
                        0 <= a < i + 1 && fields_overlap(fs@[a], fs@[j as int]) implies exists|k: int|
                            n0 <= k < out@.len() && #[trigger] out@[k] == overlap_diagnostic(fs@[a], fs@[j as int]) by {
                        if a < i {
                            let k = choose|k: int| n0 <= k < before.len() && #[trigger] before[k] == overlap_diagnostic(fs@[a], fs@[j as int]);
                            assert(out@[k] == before[k]);
                        } else {
                            assert(out@[before.len() as int] == overlap_diagnostic(fs@[a], fs@[j as int]));
                        }
                    }
                }
            }
            i = i + 1;
        }
        proof {
            if out@.len() == n1 {
                assert forall|a: int, b: int| 0 <= a < b < j + 1 implies !fields_overlap(fs@[a], fs@[b]) by {
                    if b == j {
                    } else {
                    }
                }
            } else if m0 == n1 {
                let a = choose|a: int| 0 <= a < j && fields_overlap(fs@[a], fs@[j as int]);
                assert(0 <= a < j as int + 1);
            }
            assert forall|a: int, b: int|
                0 <= a < b < j + 1 && fields_overlap(fs@[a], fs@[b]) implies exists|k: int|
                    n0 <= k < out@.len() && #[trigger] out@[k] == overlap_diagnostic(fs@[a], fs@[b]) by {
                if b < j {
                } else {
                }
            }
        }
        j = j + 1;
    }
}

/// Bytes a register array of `count` words of `width` bits takes.
fn prim_bytes(width: u32, count: u32) -> (r: u128)
    ensures
        r == prim_size(width, count),
        r <= 0x2000_0000 * 0x1_0000_0000u128,
{
    proof {
        assert((width as int / 8) * count <= 0x2000_0000 * 0x1_0000_0000) by (nonlinear_arith)
            requires
                width as int / 8 <= 0x2000_0000,
                count <= 0xffff_ffff,
        ;
    }
    ((width / 8) as u128) * (count as u128)
}

/// Size of one element of a group: the furthest end of its sub-registers.
pub fn stride(regs: &Vec<Reg>) -> (r: u128)
    ensures
        r == group_stride(regs@),
        r <= 0x1_0000_0000u128 + 0x2000_0000 * 0x1_0000_0000u128,
{
    let mut acc: u128 = 0;
    let mut i: usize = 0;
    while i < regs.len()
        invariant
            0 <= i <= regs@.len(),
            acc == group_stride(regs@.subrange(0, i as int)),
            acc <= 0x1_0000_0000u128 + 0x2000_0000 * 0x1_0000_0000u128,
        decreases regs@.len() - i,
    {
        let e: u128 = match &regs[i].ty {
            RegType::Prim(w, _) => regs[i].offset as u128 + prim_bytes(*w, regs[i].count),
            RegType::Group(_) => regs[i].offset as u128,
        };
        proof {
            let s = regs@.subrange(0, i as int + 1);
            assert(s.drop_last() =~= regs@.subrange(0, i as int));
            assert(s.last() == regs@[i as int]);
        }
        if e > acc {
            acc = e;
        }
        i = i + 1;
    }
    proof {
        assert(regs@.subrange(0, regs@.len() as int) =~= regs@);
    }
    acc
}

/// Bytes an entry of a block takes.
pub fn size(r: &Reg) -> (s: u128)
    ensures
        s == entry_size(*r),
        s <= (0x1_0000_0000u128 + 0x2000_0000 * 0x1_0000_0000u128) * 0x1_0000_0000u128,
{
    match &r.ty {
        RegType::Prim(w, _) => prim_bytes(*w, r.count),
        RegType::Group(regs) => {
            let st = stride(regs);
            proof {
                assert(st * r.count <= (0x1_0000_0000u128 + 0x2000_0000 * 0x1_0000_0000u128)
                    * 0x1_0000_0000u128) by (nonlinear_arith)
                    requires
                        st <= 0x1_0000_0000u128 + 0x2000_0000 * 0x1_0000_0000u128,
                        r.count <= 0xffff_ffff,
                ;
            }
            st * (r.count as u128)
        },
    }
}

/// Reports every pair of entries that share a byte, citing both.
pub fn check_disjoint(rs: &Vec<Reg>, out: &mut Vec<Diagnostic>)
    ensures
        appended(old(out)@, final(out)@),
        final(out)@.len() == old(out)@.len() <==> entries_disjoint(rs@),
        forall|len: nat| (forall|k: int| 0 <= k < rs@.len() ==> span_in(#[trigger] rs@[k].span, len)) && all_in(old(out)@, len) ==> #[trigger] all_in(final(out)@, len),
{
    proof {
        assert(out@.subrange(0, out@.len() as int) =~= out@);
    }
    let ghost n0 = out@.len();
    let mut j: usize = 0;
    while j < rs.len()
        invariant
            0 <= j <= rs@.len(),
            appended(old(out)@, out@),
            out@.len() >= n0,
            n0 == old(out)@.len(),
            out@.len() == n0 <==> forall|a: int, b: int| 0 <= a < b < j ==> !entries_overlap(rs@[a], rs@[b]),
            forall|len: nat| (forall|k: int| 0 <= k < rs@.len() ==> span_in(#[trigger] rs@[k].span, len)) && all_in(old(out)@, len) ==> #[trigger] all_in(out@, len),
        decreases rs@.len() - j,
    {
        let ghost m0 = out@.len();
        let start_j = rs[j].offset as u128;
        let end_j = start_j + size(&rs[j]);
        let mut i: usize = 0;
        while i < j
            invariant
                0 <= i <= j < rs@.len(),
                start_j == rs@[j as int].offset,
                end_j == rs@[j as int].offset + entry_size(rs@[j as int]),
                appended(old(out)@, out@),
                out@.len() >= m0,
                m0 >= n0,
                m0 == n0 <==> forall|a: int, b: int| 0 <= a < b < j ==> !entries_overlap(rs@[a], rs@[b]),
                out@.len() == m0 <==> forall|a: int| 0 <= a < i ==> !entries_overlap(rs@[a], rs@[j as int]),
                forall|len: nat| (forall|k: int| 0 <= k < rs@.len() ==> span_in(#[trigger] rs@[k].span, len)) && all_in(old(out)@, len) ==> #[trigger] all_in(out@, len),
            decreases j - i,
        {
            let start_i = rs[i].offset as u128;
            let end_i = start_i + size(&rs[i]);
            if start_i < end_j && start_j < end_i {
                report(out, layout_error(LayoutKind::EntryOverlap, rs[j].span, Some(rs[i].span)));
            }
            i = i + 1;
        }
        proof {
            if out@.len() == n0 {
                assert forall|a: int, b: int| 0 <= a < b < j + 1 implies !entries_overlap(rs@[a], rs@[b]) by {
                    if b == j {
                    } else {
                    }
                }
            } else if m0 == n0 {
                let a = choose|a: int| 0 <= a < j && entries_overlap(rs@[a], rs@[j as int]);
                assert(0 <= a < j as int + 1);
            }
        }
        j = j + 1;
    }
}

/// Every pair of overlapping fields of the word `r` has its diagnostic,
/// citing both fields, in `ds`.
pub open spec fn overlaps_reported(r: Reg, ds: Seq<Diagnostic>) -> bool {
    r.ty matches RegType::Prim(_, fs) ==> forall|i: int, j: int|
        0 <= i < j < fs@.len() && fields_overlap(fs@[i], fs@[j]) ==> exists|k: int|
            0 <= k < ds.len() && #[trigger] ds[k] == overlap_diagnostic(fs@[i], fs@[j])
}

/// The same for an entry of a block: a word, or each word of a group.
pub open spec fn entry_overlaps_reported(r: Reg, ds: Seq<Diagnostic>) -> bool {
    &&& overlaps_reported(r, ds)
    &&& r.ty matches RegType::Group(regs) ==> forall|g: int|
        0 <= g < regs@.len() ==> overlaps_reported(#[trigger] regs@[g], ds)
}

proof fn lemma_reported_grows(r: Reg, a: Seq<Diagnostic>, b: Seq<Diagnostic>)
    requires
        appended(a, b),
        overlaps_reported(r, a),
    ensures
        overlaps_reported(r, b),
{
    if let RegType::Prim(_, fs) = r.ty {
        assert forall|i: int, j: int|
            0 <= i < j < fs@.len() && fields_overlap(fs@[i], fs@[j]) implies exists|k: int|
                0 <= k < b.len() && #[trigger] b[k] == overlap_diagnostic(fs@[i], fs@[j]) by {
            let k = choose|k: int| 0 <= k < a.len() && #[trigger] a[k] == overlap_diagnostic(fs@[i], fs@[j]);
            assert(b.subrange(0, a.len() as int)[k] == b[k]);
        }
    }
}

proof fn lemma_entry_reported_grows(r: Reg, a: Seq<Diagnostic>, b: Seq<Diagnostic>)
    requires
        appended(a, b),
        entry_overlaps_reported(r, a),
    ensures
        entry_overlaps_reported(r, b),
{
    lemma_reported_grows(r, a, b);
    if let RegType::Group(regs) = r.ty {
        assert forall|g: int| 0 <= g < regs@.len() implies overlaps_reported(#[trigger] regs@[g], b) by {
            lemma_reported_grows(regs@[g], a, b);
        }
    }
}

/// Checks a register word: its width, its element count and its fields.
pub fn check_register(r: &Reg, out: &mut Vec<Diagnostic>)
    requires
        r.ty is Prim,
    ensures
        appended(old(out)@, final(out)@),
        final(out)@.len() == old(out)@.len() <==> prim_valid(*r),
        forall|len: nat| reg_spans_in(*r, len) && all_in(old(out)@, len) ==> #[trigger] all_in(final(out)@, len),
        overlaps_reported(*r, final(out)@),
{
    proof {
        assert(out@.subrange(0, out@.len() as int) =~= out@);
    }
    match &r.ty {
        RegType::Prim(w, fs) => {
            if RegWidth::from_bits(*w as u64).is_none() {
                report(out, layout_error(LayoutKind::UnsupportedWidth, r.span, None));
            }
            if r.count == 0 {
                report(out, layout_error(LayoutKind::ZeroCount, r.span, None));
            }
            let ghost before = out@;
            check_fields(fs, *w, out);
            proof {
                lemma_appended_trans(old(out)@, before, out@);
                assert(r.ty->Prim_1 == *fs);
            }
        },
        RegType::Group(_) => {},
    }
}

/// Checks one entry of a block: a register, or a group and each of its
/// sub-registers, and that these share no byte.
pub fn check_entry(r: &Reg, out: &mut Vec<Diagnostic>)
    ensures
        appended(old(out)@, final(out)@),
        final(out)@.len() == old(out)@.len() <==> entry_valid(*r),
        forall|len: nat| reg_spans_in(*r, len) && all_in(old(out)@, len) ==> #[trigger] all_in(final(out)@, len),
        entry_overlaps_reported(*r, final(out)@),
{
    proof {
        assert(out@.subrange(0, out@.len() as int) =~= out@);
    }
    match &r.ty {
        RegType::Prim(_, _) => {
            check_register(r, out);
        },
        RegType::Group(regs) => {
            if r.count == 0 {
                report(out, layout_error(LayoutKind::ZeroCount, r.span, None));
            }
            let ghost n0 = out@.len();
            let mut i: usize = 0;
            while i < regs.len()
                invariant
                    0 <= i <= regs@.len(),
                    appended(old(out)@, out@),
                    out@.len() >= n0,
                    n0 >= old(out)@.len(),
                    n0 == old(out)@.len() <==> r.count >= 1,
                    out@.len() == n0 <==> forall|k: int| 0 <= k < i ==> prim_valid(#[trigger] regs@[k]),
                    r.ty == RegType::Group(*regs),
                    forall|len: nat| reg_spans_in(*r, len) && all_in(old(out)@, len) ==> #[trigger] all_in(out@, len),
                    forall|g: int| 0 <= g < i ==> overlaps_reported(#[trigger] regs@[g], out@),
                decreases regs@.len() - i,
            {
                let ghost before = out@;
                proof {
                    assert(before.subrange(0, before.len() as int) =~= before);
                }
                match &regs[i].ty {
                    RegType::Prim(_, _) => {
                        check_register(&regs[i], out);
                    },
                    RegType::Group(_) => {
                        report(out, layout_error(LayoutKind::NestedGroup, regs[i].span, Some(r.span)));
                    },
                }
                proof {
                    lemma_appended_trans(old(out)@, before, out@);
                    assert forall|g: int| 0 <= g < i + 1 implies overlaps_reported(#[trigger] regs@[g], out@) by {
                        if g < i {
                            lemma_reported_grows(regs@[g], before, out@);
                        }
                    }
                    assert forall|len: nat| reg_spans_in(*r, len) && all_in(old(out)@, len) implies #[trigger] all_in(out@, len) by {
                        assert(r.ty->Group_0@ == regs@);
                        assert(forall|k: int| 0 <= k < regs@.len() ==> reg_spans_in(#[trigger] regs@[k], len));
                        assert(reg_spans_in(regs@[i as int], len));
                        assert(all_in(before, len));
                    }
                }
                i = i + 1;
            }
            let ghost before = out@;
            check_disjoint(regs, out);
            proof {
                lemma_appended_trans(old(out)@, before, out@);
                assert forall|g: int| 0 <= g < regs@.len() implies overlaps_reported(#[trigger] regs@[g], out@) by {
                    lemma_reported_grows(regs@[g], before, out@);
                }
                assert forall|len: nat| reg_spans_in(*r, len) && all_in(old(out)@, len) implies #[trigger] all_in(out@, len) by {
                    assert forall|k: int| 0 <= k < regs@.len() implies span_in(#[trigger] regs@[k].span, len) by {
                        assert(reg_spans_in(regs@[k], len));
                    }
                    assert(all_in(before, len));
                }
            }
        },
    }
}

/// Checks a whole register block, continuing past each error: the result
/// is empty exactly when the block is valid.
pub fn check_block(b: &RegBlock) -> (r: Vec<Diagnostic>)
    ensures
        r@.len() == 0 <==> block_valid(*b),
        forall|len: nat| (forall|k: int| 0 <= k < b.entries@.len() ==> reg_spans_in(#[trigger] b.entries@[k], len)) ==> #[trigger] all_in(r@, len),
        forall|e: int| 0 <= e < b.entries@.len() ==> entry_overlaps_reported(#[trigger] b.entries@[e], r@),
{
    let mut out: Vec<Diagnostic> = Vec::new();
    let mut i: usize = 0;
    while i < b.entries.len()
        invariant
            0 <= i <= b.entries@.len(),
            out@.len() == 0 <==> forall|k: int| 0 <= k < i ==> entry_valid(#[trigger] b.entries@[k]),
            forall|len: nat| (forall|k: int| 0 <= k < b.entries@.len() ==> reg_spans_in(#[trigger] b.entries@[k], len)) ==> #[trigger] all_in(out@, len),
            forall|e: int| 0 <= e < i ==> entry_overlaps_reported(#[trigger] b.entries@[e], out@),
        decreases b.entries@.len() - i,
    {
        let ghost before = out@;
        check_entry(&b.entries[i], &mut out);
        proof {
            assert forall|e: int| 0 <= e < i + 1 implies entry_overlaps_reported(#[trigger] b.entries@[e], out@) by {
                if e < i {
                    lemma_entry_reported_grows(b.entries@[e], before, out@);
                }
            }
        }
        i = i + 1;
    }
    let ghost before = out@;
    check_disjoint(&b.entries, &mut out);
    proof {
        assert forall|e: int| 0 <= e < b.entries@.len() implies entry_overlaps_reported(#[trigger] b.entries@[e], out@) by {
            lemma_entry_reported_grows(b.entries@[e], before, out@);
        }
    }
    out
}

/// Shift of element `i` of field `f`.
pub open spec fn slot_shift(f: Field, i: int) -> int {
    f.spec_low() + i * f.spec_elem_width()
}

proof fn lemma_ranges_disjoint_bits(a: u32, wa: u32, b: u32, wb: u32)
    requires
        1 <= wa <= 32,
        1 <= wb <= 32,
        a + wa <= b,
        b + wb <= 32,
    ensures
        crate::runtime::field_bits(a, wa) & crate::runtime::field_bits(b, wb) == 0,
        crate::runtime::field_bits(b, wb) & crate::runtime::field_bits(a, wa) == 0,
{
    assert(1 <= wa <= 32 && 1 <= wb <= 32 && a + wa <= b && b + wb <= 32 ==> (crate::layout::low_mask(wa)
        << a) & (crate::layout::low_mask(wb) << b) == 0 && (crate::layout::low_mask(wb) << b) & (
    crate::layout::low_mask(wa) << a) == 0) by (bit_vector);
}

proof fn lemma_slot_in_field(f: Field, bits: u32, i: int)
    requires
        field_valid(f, bits),
        bits <= 32,
        0 <= i < f.count,
    ensures
        1 <= f.spec_elem_width(),
        f.spec_low() <= slot_shift(f, i),
        slot_shift(f, i) + f.spec_elem_width() <= f.spec_high() + 1,
        f.spec_high() < bits,
{
    let ew = f.spec_elem_width();
    let span = f.spec_span_bits();
    let c = f.count as nat;
    assert(span == ew * c && ew >= 1) by (nonlinear_arith)
        requires
            ew == span / c,
            span % c == 0,
            c >= 1,
            span >= 1,
    ;
    assert(i * ew + ew <= c * ew) by (nonlinear_arith)
        requires
            0 <= i < c,
            ew >= 1,
    ;
    assert(0 <= i * ew) by (nonlinear_arith)
        requires
            0 <= i,
            ew >= 1,
    ;
}

/// In a valid register word, every element of every field lies inside the
/// word, and no two elements (of two fields, or two elements of one field
/// array) share a bit.
pub proof fn lemma_slots_disjoint(r: Reg, f: int, i: int, g: int, j: int)
    requires
        prim_valid(r),
        0 <= f < r.ty->Prim_1@.len(),
        0 <= g < r.ty->Prim_1@.len(),
        0 <= i < r.ty->Prim_1@[f].count,
        0 <= j < r.ty->Prim_1@[g].count,
        f != g || i != j,
    ensures
        ({
            let fs = r.ty->Prim_1@;
            let w = r.ty->Prim_0;
            &&& slot_shift(fs[f], i) + fs[f].spec_elem_width() <= w
            &&& crate::runtime::field_bits(slot_shift(fs[f], i) as u32, fs[f].spec_elem_width() as u32)
                & crate::runtime::field_bits(slot_shift(fs[g], j) as u32, fs[g].spec_elem_width() as u32) == 0
        }),
{
    let fs = r.ty->Prim_1@;
    let w = r.ty->Prim_0;
    lemma_slot_in_field(fs[f], w, i);
    lemma_slot_in_field(fs[g], w, j);
    let a = slot_shift(fs[f], i);
    let b = slot_shift(fs[g], j);
    let wa = fs[f].spec_elem_width();
    let wb = fs[g].spec_elem_width();
    if f == g {
        if i < j {
            assert(a + wa <= b) by (nonlinear_arith)
                requires
                    a == fs[f].spec_low() + i * wa,
                    b == fs[f].spec_low() + j * wa,
                    i < j,
                    wa >= 1,
            ;
            lemma_ranges_disjoint_bits(a as u32, wa as u32, b as u32, wb as u32);
        } else {
            assert(b + wb <= a) by (nonlinear_arith)
                requires
                    a == fs[f].spec_low() + i * wa,
                    b == fs[f].spec_low() + j * wa,
                    j < i,
                    wa >= 1,
                    wb == wa,
            ;
            lemma_ranges_disjoint_bits(b as u32, wb as u32, a as u32, wa as u32);
        }
    } else {
        if f < g {
            assert(!fields_overlap(fs[f], fs[g]));
        } else {
            assert(!fields_overlap(fs[g], fs[f]));
        }
        if fs[f].spec_high() < fs[g].spec_low() {
            lemma_ranges_disjoint_bits(a as u32, wa as u32, b as u32, wb as u32);
        } else {
            lemma_ranges_disjoint_bits(b as u32, wb as u32, a as u32, wa as u32);
        }
    }
}

/// A block with two fields sharing a bit in one of its registers, or in a
/// register of one of its groups, is not valid.
pub proof fn lemma_overlap_rejected(b: RegBlock, e: int, g: int, i: int, j: int)
    requires
        0 <= e < b.entries@.len(),
        ({
            let r = if b.entries@[e].ty is Group && 0 <= g < b.entries@[e].ty->Group_0@.len() {
                b.entries@[e].ty->Group_0@[g]
            } else {
                b.entries@[e]
            };
            r.ty matches RegType::Prim(_, fs) && 0 <= i < j < fs@.len() && fields_overlap(fs@[i], fs@[j])
        }),
    ensures
        !block_valid(b),
{
    assert(!entry_valid(b.entries@[e]));
}

/// The validated block, or every diagnostic found in it.
pub fn validate(b: RegBlock) -> (r: Result<RegBlock, Vec<Diagnostic>>)
    ensures
        r matches Ok(v) ==> v == b && block_valid(b),
        r matches Err(d) ==> d@.len() > 0 && !block_valid(b),
        r matches Err(d) ==> forall|e: int| 0 <= e < b.entries@.len() ==> entry_overlaps_reported(#[trigger] b.entries@[e], d@),
        r matches Err(d) ==> forall|len: nat| (forall|k: int| 0 <= k < b.entries@.len() ==> reg_spans_in(#[trigger] b.entries@[k], len)) ==> #[trigger] all_in(d@, len),
        r is Ok <==> block_valid(b),
{
    let d = check_block(&b);
    if d.len() == 0 {
        Ok(b)
    } else {
        Err(d)
    }
}

} // verus!
