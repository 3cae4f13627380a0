//! The specification parser: register-definition text to a register tree.
//!
//! ```text
//! block    := NAME '=' '{' entry* '}'
//! entry    := INT '=>' regdecl | INT '=>' groupdecl
//! regdecl  := 'reg' WIDTH NAME ('[' INT ']')? '{' (field (',' field)* ','?)? '}'
//! groupdecl:= 'group' NAME '[' INT ']' '{' entry* '}'
//! field    := bits '=>' NAME ('[' INT ']')? (':' ('ro' | 'wo'))?
//!             ('{' (INT '=>' NAME (',' INT '=>' NAME)* ','?)? '}')?
//! bits     := INT | INT '..' INT
//! ```
//! `reg` and its width are one word (`reg32`). The spec functions ending
//! in `_syn` state this grammar as a recognizer, and the parser is proved
//! to succeed exactly where it accepts.
//! Integers are decimal or `0x` hexadecimal; `//` starts a comment.
use crate::diag::{Diagnostic, ErrorKind, SyntaxKind};
use crate::model::{field_spans_in, reg_spans_in, span_in, Access, Field, Reg, RegBlock, RegType, Span, Variant};
use vstd::prelude::*;

verus! {

pub open spec fn is_digit(c: u8) -> bool {
    48 <= c <= 57
}

pub open spec fn is_ident_start(c: u8) -> bool {
    (97 <= c <= 122) || (65 <= c <= 90) || c == 95
}

pub open spec fn is_ident_char(c: u8) -> bool {
    is_ident_start(c) || is_digit(c)
}

/// A name: a letter or `_`, then letters, digits and `_`.
pub open spec fn is_ident(s: Seq<u8>) -> bool {
    &&& s.len() > 0
    &&& is_ident_start(s[0])
    &&& forall|i: int| 0 <= i < s.len() ==> is_ident_char(#[trigger] s[i])
}

/// End of the run of name bytes from `q`.
pub open spec fn ident_end(src: Seq<u8>, q: int) -> int
    decreases src.len() - q,
{
    if 0 <= q < src.len() && is_ident_char(src[q]) {
        ident_end(src, q + 1)
    } else {
        q
    }
}

/// End of the name at `a`; `a` itself when none starts there.
pub open spec fn name_end(src: Seq<u8>, a: int) -> int {
    if 0 <= a < src.len() && is_ident_start(src[a]) {
        ident_end(src, a + 1)
    } else {
        a
    }
}

// The grammar as a recognizer: each function below says whether the
// construct stands at a position (after white space and comments) and
// where it ends.

/// The byte `c`.
pub open spec fn tok(src: Seq<u8>, p: int, c: u8) -> Option<int> {
    let w = ws_end(src, p);
    if 0 <= w < src.len() && src[w] == c {
        Some(w + 1)
    } else {
        None
    }
}

/// `=>`.
pub open spec fn arrow(src: Seq<u8>, p: int) -> Option<int> {
    let w = ws_end(src, p);
    if 0 <= w && w + 1 < src.len() && src[w] == 61 && src[w + 1] == 62 {
        Some(w + 2)
    } else {
        None
    }
}

/// A name.
pub open spec fn ident_tok(src: Seq<u8>, p: int) -> Option<int> {
    let w = ws_end(src, p);
    if 0 <= w < src.len() && is_ident_start(src[w]) {
        Some(name_end(src, w))
    } else {
        None
    }
}

/// An integer.
pub open spec fn int_tok(src: Seq<u8>, p: int) -> Option<int> {
    int_lit(src, ws_end(src, p))
}

/// `[ INT ]`, or nothing.
pub open spec fn count_opt(src: Seq<u8>, p: int) -> Option<int> {
    let w = ws_end(src, p);
    if 0 <= w < src.len() && src[w] == 91 {
        match int_tok(src, w + 1) {
            Some(q) => tok(src, q, 93),
            None => None,
        }
    } else {
        Some(p)
    }
}

/// `: ro` or `: wo`, or nothing.
pub open spec fn access_opt(src: Seq<u8>, p: int) -> Option<int> {
    let w = ws_end(src, p);
    if 0 <= w < src.len() && src[w] == 58 {
        let a = ws_end(src, w + 1);
        let e = name_end(src, a);
        if src.subrange(a, e) == seq![114u8, 111u8] || src.subrange(a, e) == seq![119u8, 111u8] {
            Some(e)
        } else {
            None
        }
    } else {
        Some(p)
    }
}

/// Variants after `{`, through the closing `}`.
pub open spec fn variants_syn(src: Seq<u8>, p: int) -> Option<int>
    decreases src.len() - p,
{
    let w = ws_end(src, p);
    if !(0 <= p <= src.len()) {
        None
    } else if 0 <= w < src.len() && src[w] == 125 {
        Some(w + 1)
    } else {
        match int_lit(src, w) {
            None => None,
            Some(q1) => match arrow(src, q1) {
                None => None,
                Some(q2) => match ident_tok(src, q2) {
                    None => None,
                    Some(q3) => {
                        let q = ws_end(src, q3);
                        if 0 <= q < src.len() && src[q] == 44 {
                            if p < q + 1 <= src.len() {
                                variants_syn(src, q + 1)
                            } else {
                                None
                            }
                        } else if 0 <= q < src.len() && src[q] == 125 {
                            Some(q + 1)
                        } else {
                            None
                        }
                    },
                },
            },
        }
    }
}

/// `INT` or `INT..INT`.
pub open spec fn bits_syn(src: Seq<u8>, p: int) -> Option<int> {
    match int_lit(src, p) {
        None => None,
        Some(q0) => if 0 <= q0 < src.len() && src[q0] == 46 {
            if q0 + 1 < src.len() && src[q0 + 1] == 46 {
                int_lit(src, q0 + 2)
            } else {
                None
            }
        } else {
            Some(q0)
        },
    }
}

/// A field.
pub open spec fn field_syn(src: Seq<u8>, p: int) -> Option<int> {
    match bits_syn(src, ws_end(src, p)) {
        None => None,
        Some(q1) => match arrow(src, q1) {
            None => None,
            Some(q2) => match ident_tok(src, q2) {
                None => None,
                Some(q3) => match count_opt(src, q3) {
                    None => None,
                    Some(q4) => match access_opt(src, q4) {
                        None => None,
                        Some(q5) => {
                            let v = ws_end(src, q5);
                            if 0 <= v < src.len() && src[v] == 123 {
                                variants_syn(src, v + 1)
                            } else {
                                Some(q5)
                            }
                        },
                    },
                },
            },
        },
    }
}

/// Fields after `{`, through the closing `}`.
pub open spec fn fields_syn(src: Seq<u8>, p: int) -> Option<int>
    decreases src.len() - p,
{
    let q = ws_end(src, p);
    if !(0 <= p <= src.len()) {
        None
    } else if 0 <= q < src.len() && src[q] == 125 {
        Some(q + 1)
    } else {
        match field_syn(src, q) {
            None => None,
            Some(q1) => {
                let q2 = ws_end(src, q1);
                if 0 <= q2 < src.len() && src[q2] == 44 {
                    if p < q2 + 1 <= src.len() {
                        fields_syn(src, q2 + 1)
                    } else {
                        None
                    }
                } else if 0 <= q2 < src.len() && src[q2] == 125 {
                    Some(q2 + 1)
                } else {
                    None
                }
            },
        }
    }
}

/// `reg` followed by the decimal digits of a 32-bit width.
pub open spec fn reg_word(w: Seq<u8>) -> bool {
    &&& w.len() > 3
    &&& w[0] == 114 && w[1] == 101 && w[2] == 103
    &&& all_digits(w.subrange(3, w.len() as int), 10)
    &&& value_of(w.subrange(3, w.len() as int), 10) <= u32::MAX
}

pub open spec fn group_word() -> Seq<u8> {
    seq![103u8, 114u8, 111u8, 117u8, 112u8]
}

/// An entry: a register or a group.
pub open spec fn entry_syn(src: Seq<u8>, p: int) -> Option<int>
    decreases src.len() - p, 0int,
{
    if !(0 <= p <= src.len()) {
        None
    } else {
        match int_lit(src, ws_end(src, p)) {
            None => None,
            Some(q0) => match arrow(src, q0) {
                None => None,
                Some(q1) => {
                    let k = ws_end(src, q1);
                    let ke = name_end(src, k);
                    let word = src.subrange(k, ke);
                    if word == seq![114u8, 101u8, 103u8] {
                        None
                    } else if word == group_word() {
                        match ident_tok(src, ke) {
                            None => None,
                            Some(q2) => match tok(src, q2, 91) {
                                None => None,
                                Some(q3) => match int_tok(src, q3) {
                                    None => None,
                                    Some(q4) => match tok(src, q4, 93) {
                                        None => None,
                                        Some(q5) => match tok(src, q5, 123) {
                                            None => None,
                                            Some(q6) => if p < q6 <= src.len() {
                                                match entries_syn(src, q6) {
                                                    None => None,
                                                    Some(q7) => tok(src, q7, 125),
                                                }
                                            } else {
                                                None
                                            },
                                        },
                                    },
                                },
                            },
                        }
                    } else if reg_word(word) {
                        match ident_tok(src, ke) {
                            None => None,
                            Some(q2) => match count_opt(src, q2) {
                                None => None,
                                Some(q3) => match tok(src, q3, 123) {
                                    None => None,
                                    Some(q4) => fields_syn(src, q4),
                                },
                            },
                        }
                    } else {
                        None
                    }
                },
            },
        }
    }
}

/// Entries up to a closing `}`: where that `}` stands.
pub open spec fn entries_syn(src: Seq<u8>, p: int) -> Option<int>
    decreases src.len() - p, 1int,
{
    let q = ws_end(src, p);
    if !(0 <= p <= q < src.len()) {
        None
    } else if src[q] == 125 {
        Some(q)
    } else {
        match entry_syn(src, q) {
            None => None,
            Some(q1) => if p < q1 <= src.len() {
                entries_syn(src, q1)
            } else {
                None
            },
        }
    }
}

/// A whole specification: `NAME = { entry* }` and nothing after it but
/// white space and comments.
pub open spec fn block_syn(src: Seq<u8>) -> bool {
    match ident_tok(src, 0) {
        None => false,
        Some(q1) => match tok(src, q1, 61) {
            None => false,
            Some(q2) => match tok(src, q2, 123) {
                None => false,
                Some(q3) => match entries_syn(src, q3) {
                    None => false,
                    Some(q4) => match tok(src, q4, 125) {
                        None => false,
                        Some(q5) => ws_end(src, q5) == src.len(),
                    },
                },
            },
        },
    }
}

// The tree the grammar gives, as spec values: the parser returns a tree
// that matches it (`block_is`).

pub struct VariantV {
    pub code: u32,
    pub name: Seq<u8>,
    pub span: Span,
}

pub struct FieldV {
    pub name: Seq<u8>,
    pub span: Span,
    pub first: u32,
    pub last: u32,
    pub count: u32,
    pub is_array: bool,
    pub access: Access,
    pub variants: Seq<VariantV>,
}

pub enum RegTypeV {
    Prim(u32, Seq<FieldV>),
    Group(Seq<RegV>),
}

pub struct RegV {
    pub name: Seq<u8>,
    pub span: Span,
    pub offset: u32,
    pub count: u32,
    pub is_array: bool,
    pub ty: RegTypeV,
}

pub struct BlockV {
    pub name: Seq<u8>,
    pub span: Span,
    pub entries: Seq<RegV>,
}

pub open spec fn variant_is(v: Variant, x: VariantV) -> bool {
    v.code == x.code && v.name@ == x.name && v.span == x.span
}

pub open spec fn variants_are(vs: Seq<Variant>, xs: Seq<VariantV>) -> bool {
    vs.len() == xs.len() && forall|i: int| 0 <= i < vs.len() ==> variant_is(#[trigger] vs[i], xs[i])
}

pub open spec fn field_is(f: Field, x: FieldV) -> bool {
    &&& f.name@ == x.name && f.span == x.span
    &&& f.first == x.first && f.last == x.last && f.count == x.count
    &&& f.is_array == x.is_array && f.access == x.access
    &&& variants_are(f.variants@, x.variants)
}

pub open spec fn fields_are(fs: Seq<Field>, xs: Seq<FieldV>) -> bool {
    fs.len() == xs.len() && forall|i: int| 0 <= i < fs.len() ==> field_is(#[trigger] fs[i], xs[i])
}

pub open spec fn reg_is(r: Reg, x: RegV) -> bool
    decreases r,
{
    &&& r.name@ == x.name && r.span == x.span && r.offset == x.offset
    &&& r.count == x.count && r.is_array == x.is_array
    &&& match (r.ty, x.ty) {
        (RegType::Prim(w, fs), RegTypeV::Prim(w2, xs)) => w == w2 && fields_are(fs@, xs),
        (RegType::Group(rs), RegTypeV::Group(xs)) => rs@.len() == xs.len() && forall|i: int|
            0 <= i < rs@.len() ==> reg_is(#[trigger] rs@[i], xs[i]),
        _ => false,
    }
}

pub open spec fn regs_are(rs: Seq<Reg>, xs: Seq<RegV>) -> bool {
    rs.len() == xs.len() && forall|i: int| 0 <= i < rs.len() ==> reg_is(#[trigger] rs[i], xs[i])
}

pub open spec fn block_is(b: RegBlock, x: BlockV) -> bool {
    b.name@ == x.name && b.span == x.span && regs_are(b.entries@, x.entries)
}

/// The value of the integer literal at `p`.
pub open spec fn int_val(src: Seq<u8>, p: int) -> u32 {
    value_of(
        src.subrange(literal_start(src, p), digits_end(src, literal_start(src, p), literal_radix(src, p))),
        literal_radix(src, p),
    ) as u32
}

/// The count of `[ INT ]` after `p`, and whether it is there.
pub open spec fn count_val(src: Seq<u8>, p: int) -> (u32, bool) {
    let w = ws_end(src, p);
    if 0 <= w < src.len() && src[w] == 91 {
        (int_val(src, ws_end(src, w + 1)), true)
    } else {
        (1, false)
    }
}

/// The access mode written after `p`.
pub open spec fn access_val(src: Seq<u8>, p: int) -> Access {
    let w = ws_end(src, p);
    if 0 <= w < src.len() && src[w] == 58 {
        let a = ws_end(src, w + 1);
        if src.subrange(a, name_end(src, a)) == seq![114u8, 111u8] {
            Access::ReadOnly
        } else {
            Access::WriteOnly
        }
    } else {
        Access::ReadWrite
    }
}

/// The variants that `variants_syn` accepts from `p`.
pub open spec fn variants_val(src: Seq<u8>, p: int) -> Seq<VariantV>
    decreases src.len() - p,
{
    let w = ws_end(src, p);
    if !(0 <= p <= src.len()) || (0 <= w < src.len() && src[w] == 125) {
        seq![]
    } else {
        let q2 = arrow(src, int_lit(src, w)->Some_0)->Some_0;
        let nlo = ws_end(src, q2);
        let q3 = name_end(src, nlo);
        let v = VariantV { code: int_val(src, w), name: src.subrange(nlo, q3), span: Span { lo: w as usize, hi: q3 as usize } };
        let q = ws_end(src, q3);
        if 0 <= q < src.len() && src[q] == 44 && p < q + 1 <= src.len() {
            seq![v] + variants_val(src, q + 1)
        } else {
            seq![v]
        }
    }
}

/// The field that `field_syn` accepts at `p`.
pub open spec fn field_val(src: Seq<u8>, p: int) -> FieldV {
    let lo = ws_end(src, p);
    let q0 = int_lit(src, lo)->Some_0;
    let ranged = 0 <= q0 < src.len() && src[q0] == 46;
    let q1 = if ranged { int_lit(src, q0 + 2)->Some_0 } else { q0 };
    let q2 = arrow(src, q1)->Some_0;
    let nlo = ws_end(src, q2);
    let q3 = name_end(src, nlo);
    let q4 = count_opt(src, q3)->Some_0;
    let q5 = access_opt(src, q4)->Some_0;
    let v = ws_end(src, q5);
    let has_variants = 0 <= v < src.len() && src[v] == 123;
    FieldV {
        name: src.subrange(nlo, q3),
        span: Span { lo: lo as usize, hi: (if has_variants { variants_syn(src, v + 1)->Some_0 } else { q5 }) as usize },
        first: int_val(src, lo),
        last: if ranged { int_val(src, q0 + 2) } else { int_val(src, lo) },
        count: count_val(src, q3).0,
        is_array: count_val(src, q3).1,
        access: access_val(src, q4),
        variants: if has_variants { variants_val(src, v + 1) } else { seq![] },
    }
}

/// The fields that `fields_syn` accepts from `p`.
pub open spec fn fields_val(src: Seq<u8>, p: int) -> Seq<FieldV>
    decreases src.len() - p,
{
    let q = ws_end(src, p);
    if !(0 <= p <= src.len()) || (0 <= q < src.len() && src[q] == 125) {
        seq![]
    } else {
        let q2 = ws_end(src, field_syn(src, q)->Some_0);
        if 0 <= q2 < src.len() && src[q2] == 44 && p < q2 + 1 <= src.len() {
            seq![field_val(src, q)] + fields_val(src, q2 + 1)
        } else {
            seq![field_val(src, q)]
        }
    }
}

/// The entry that `entry_syn` accepts at `p`.
pub open spec fn entry_val(src: Seq<u8>, p: int) -> RegV
    decreases src.len() - p, 0int,
{
    let lo = ws_end(src, p);
    let q1 = arrow(src, int_lit(src, lo)->Some_0)->Some_0;
    let k = ws_end(src, q1);
    let ke = name_end(src, k);
    let word = src.subrange(k, ke);
    let nlo = ws_end(src, ke);
    let q2 = name_end(src, nlo);
    if word == group_word() {
        let q3 = tok(src, q2, 91)->Some_0;
        let q6 = tok(src, tok(src, int_tok(src, q3)->Some_0, 93)->Some_0, 123)->Some_0;
        let regs = if 0 <= p < q6 <= src.len() { entries_val(src, q6) } else { seq![] };
        RegV {
            name: src.subrange(nlo, q2),
            span: Span { lo: lo as usize, hi: tok(src, entries_syn(src, q6)->Some_0, 125)->Some_0 as usize },
            offset: int_val(src, lo),
            count: int_val(src, ws_end(src, q3)),
            is_array: true,
            ty: RegTypeV::Group(regs),
        }
    } else {
        let q4 = tok(src, count_opt(src, q2)->Some_0, 123)->Some_0;
        RegV {
            name: src.subrange(nlo, q2),
            span: Span { lo: lo as usize, hi: fields_syn(src, q4)->Some_0 as usize },
            offset: int_val(src, lo),
            count: count_val(src, q2).0,
            is_array: count_val(src, q2).1,
            ty: RegTypeV::Prim(value_of(word.subrange(3, word.len() as int), 10) as u32, fields_val(src, q4)),
        }
    }
}

/// The entries that `entries_syn` accepts from `p`.
pub open spec fn entries_val(src: Seq<u8>, p: int) -> Seq<RegV>
    decreases src.len() - p, 1int,
{
    let q = ws_end(src, p);
    if !(0 <= p <= q < src.len()) || src[q] == 125 {
        seq![]
    } else {
        let q1 = entry_syn(src, q)->Some_0;
        if p < q1 <= src.len() {
            seq![entry_val(src, q)] + entries_val(src, q1)
        } else {
            seq![entry_val(src, q)]
        }
    }
}

/// The tree of a text that `block_syn` accepts.
pub open spec fn parsed(src: Seq<u8>) -> BlockV {
    let nlo = ws_end(src, 0);
    let q1 = name_end(src, nlo);
    let q3 = tok(src, tok(src, q1, 61)->Some_0, 123)->Some_0;
    BlockV {
        name: src.subrange(nlo, q1),
        span: Span { lo: nlo as usize, hi: tok(src, entries_syn(src, q3)->Some_0, 125)->Some_0 as usize },
        entries: entries_val(src, q3),
    }
}

/// A syntax error located within a text of `len` bytes.
pub open spec fn syntax_error_in(d: Diagnostic, len: nat) -> bool {
    d.kind is Syntax && span_in(d.span, len) && d.other is None
}

/// The result of a step of the parser that started at `pos`: on success
/// the position moved forward and stays within the text; an error lies
/// within the text.
pub open spec fn step_ok<T>(r: Result<(T, usize), Diagnostic>, pos: usize, len: nat) -> bool {
    match r {
        Ok((_, p)) => pos < p <= len,
        Err(d) => syntax_error_in(d, len),
    }
}

fn syntax_error(kind: SyntaxKind, lo: usize, hi: usize) -> (r: Diagnostic)
    ensures
        r == (Diagnostic { kind: ErrorKind::Syntax(kind), span: Span { lo, hi }, other: None }),
{
    Diagnostic { kind: ErrorKind::Syntax(kind), span: Span { lo, hi }, other: None }
}

/// The error for what stands at `pos`: the end of the text, or a token
/// that was not expected there.
fn unexpected(src: &[u8], pos: usize) -> (r: Diagnostic)
    requires
        pos <= src@.len(),
    ensures
        syntax_error_in(r, src@.len()),
        r.span.lo == pos,
{
    if pos >= src.len() {
        syntax_error(SyntaxKind::UnexpectedEnd, pos, pos)
    } else {
        syntax_error(SyntaxKind::UnexpectedToken, pos, pos + 1)
    }
}

/// White space: space, tab, line feed, carriage return.
pub open spec fn is_space(c: u8) -> bool {
    c == 32 || c == 9 || c == 10 || c == 13
}

/// A `//` comment starts at `p`.
pub open spec fn comment_at(src: Seq<u8>, p: int) -> bool {
    p + 1 < src.len() && src[p] == 47 && src[p + 1] == 47
}

/// The line break that ends a comment, at or after `q`, or the end of
/// the text.
pub open spec fn line_end(src: Seq<u8>, q: int) -> int
    decreases src.len() - q,
{
    if q >= src.len() || q < 0 {
        src.len() as int
    } else if src[q] == 10 {
        q
    } else {
        line_end(src, q + 1)
    }
}

proof fn lemma_line_end(src: Seq<u8>, q: int)
    requires
        0 <= q,
    ensures
        q <= line_end(src, q) || q > src.len(),
        line_end(src, q) <= src.len(),
    decreases src.len() - q,
{
    if q < src.len() && src[q] != 10 {
        lemma_line_end(src, q + 1);
    }
}

/// Where the white space and `//` comments from `p` end.
pub open spec fn ws_end(src: Seq<u8>, p: int) -> int
    decreases src.len() - p,
    via ws_end_decreases
{
    if p >= src.len() || p < 0 {
        p
    } else if is_space(src[p]) {
        ws_end(src, p + 1)
    } else if comment_at(src, p) {
        ws_end(src, line_end(src, p + 2))
    } else {
        p
    }
}

#[via_fn]
proof fn ws_end_decreases(src: Seq<u8>, p: int) {
    if p >= 0 && p < src.len() && !is_space(src[p]) && comment_at(src, p) {
        lemma_line_end(src, p + 2);
    }
}

/// Skips white space and `//` comments.
pub fn skip_ws(src: &[u8], pos: usize) -> (r: usize)
    requires
        pos <= src@.len(),
    ensures
        r == ws_end(src@, pos as int),
        pos <= r <= src@.len(),
        r == src@.len() || !(is_space(src@[r as int]) || comment_at(src@, r as int)),
{
    let mut p = pos;
    while p < src.len()
        invariant
            pos <= p <= src@.len(),
            ws_end(src@, p as int) == ws_end(src@, pos as int),
        decreases src@.len() - p,
    {
        let c = src[p];
        if c == 32 || c == 9 || c == 10 || c == 13 {
            p = p + 1;
        } else if c == 47 && p + 1 < src.len() && src[p + 1] == 47 {
            let ghost here = p;
            p = p + 2;
            while p < src.len() && src[p] != 10
                invariant
                    pos <= p <= src@.len(),
                    here < p,
                    here + 2 <= p,
                    line_end(src@, p as int) == line_end(src@, here + 2),
                decreases src@.len() - p,
            {
                p = p + 1;
            }
        } else {
            return p;
        }
    }
    p
}

/// End of the name that starts at `pos`; `pos` itself when none does.
pub fn scan_ident(src: &[u8], pos: usize) -> (r: usize)
    requires
        pos <= src@.len(),
    ensures
        pos <= r <= src@.len(),
        r > pos ==> is_ident(src@.subrange(pos as int, r as int)),
        r == pos ==> (pos == src@.len() || !is_ident_start(src@[pos as int])),
        r > pos ==> (r == src@.len() || !is_ident_char(src@[r as int])),
        r == name_end(src@, pos as int),
{
    if pos >= src.len() || !(is_ident_start_exec(src[pos])) {
        return pos;
    }
    let mut p = pos + 1;
    while p < src.len() && is_ident_char_exec(src[p])
        invariant
            pos < p <= src@.len(),
            ident_end(src@, p as int) == ident_end(src@, pos + 1),
            is_ident_start(src@[pos as int]),
            forall|i: int| pos <= i < p ==> is_ident_char(#[trigger] src@[i]),
        decreases src@.len() - p,
    {
        p = p + 1;
    }
    proof {
        let s = src@.subrange(pos as int, p as int);
        assert forall|i: int| 0 <= i < s.len() implies is_ident_char(#[trigger] s[i]) by {
            assert(s[i] == src@[pos + i]);
        }
    }
    p
}

fn is_ident_start_exec(c: u8) -> (r: bool)
    ensures
        r == is_ident_start(c),
{
    (97 <= c && c <= 122) || (65 <= c && c <= 90) || c == 95
}

fn is_ident_char_exec(c: u8) -> (r: bool)
    ensures
        r == is_ident_char(c),
{
    is_ident_start_exec(c) || (48 <= c && c <= 57)
}

/// Value of `c` as a digit in base `radix` (10, or 16 with `a`-`f` and
/// `A`-`F`), if it is one.
pub open spec fn digit_of(c: u8, radix: nat) -> Option<nat> {
    if 48 <= c <= 57 {
        Some((c - 48) as nat)
    } else if radix == 16 && 97 <= c <= 102 {
        Some((c - 87) as nat)
    } else if radix == 16 && 65 <= c <= 70 {
        Some((c - 55) as nat)
    } else {
        None
    }
}

pub open spec fn all_digits(s: Seq<u8>, radix: nat) -> bool {
    forall|i: int| 0 <= i < s.len() ==> (#[trigger] digit_of(s[i], radix)) is Some
}

/// The number the digits `s` write in base `radix`.
pub open spec fn value_of(s: Seq<u8>, radix: nat) -> nat
    decreases s.len(),
{
    if s.len() == 0 {
        0
    } else {
        value_of(s.drop_last(), radix) * radix + match digit_of(s.last(), radix) {
            Some(d) => d,
            None => 0,
        }
    }
}

/// The literal at `pos` is hexadecimal: it starts with `0x` or `0X`.
pub open spec fn hex_prefix(src: Seq<u8>, pos: int) -> bool {
    pos + 1 < src.len() && src[pos] == 48 && (src[pos + 1] == 120 || src[pos + 1] == 88)
}

pub open spec fn literal_radix(src: Seq<u8>, pos: int) -> nat {
    if hex_prefix(src, pos) {
        16
    } else {
        10
    }
}

/// Where the digits of the literal at `pos` start.
pub open spec fn literal_start(src: Seq<u8>, pos: int) -> int {
    if hex_prefix(src, pos) {
        pos + 2
    } else {
        pos
    }
}

/// `p` ends the run of digits of the literal at `pos`.
pub open spec fn literal_end(src: Seq<u8>, pos: int, p: int) -> bool {
    &&& literal_start(src, pos) <= p <= src.len()
    &&& all_digits(src.subrange(literal_start(src, pos), p), literal_radix(src, pos))
    &&& (p == src.len() || digit_of(src[p], literal_radix(src, pos)) is None)
}

/// The integer literal at `pos` has the value `v`.
pub open spec fn int_at(src: Seq<u8>, pos: int, v: u32) -> bool {
    exists|q: int|
        literal_end(src, pos, q) && literal_start(src, pos) < q && v as nat == value_of(
            #[trigger] src.subrange(literal_start(src, pos), q),
            literal_radix(src, pos),
        )
}

/// The first bit of a field and the codes of its variants are the values
/// of the literals their declarations start with.
pub open spec fn field_text(f: Field, src: Seq<u8>) -> bool {
    &&& int_at(src, f.span.lo as int, f.first)
    &&& forall|i: int| 0 <= i < f.variants@.len() ==> int_at(src, (#[trigger] f.variants@[i]).span.lo as int, f.variants@[i].code)
}

/// The offset of an entry is the value of the literal its declaration
/// starts with, and so on for its fields and sub-entries.
pub open spec fn reg_text(r: Reg, src: Seq<u8>) -> bool
    decreases r,
{
    &&& int_at(src, r.span.lo as int, r.offset)
    &&& match r.ty {
        RegType::Prim(_, fs) => forall|i: int| 0 <= i < fs@.len() ==> field_text(#[trigger] fs@[i], src),
        RegType::Group(regs) => forall|i: int| 0 <= i < regs@.len() ==> reg_text(#[trigger] regs@[i], src),
    }
}

/// End of the run of digits in base `radix` from `q`.
pub open spec fn digits_end(src: Seq<u8>, q: int, radix: nat) -> int
    decreases src.len() - q,
{
    if 0 <= q < src.len() && digit_of(src[q], radix) is Some {
        digits_end(src, q + 1, radix)
    } else {
        q
    }
}

/// The integer literal at `p`, if one stands there and fits in 32 bits:
/// where it ends.
pub open spec fn int_lit(src: Seq<u8>, p: int) -> Option<int> {
    if 0 <= p < src.len() && is_digit(src[p]) {
        let st = literal_start(src, p);
        let e = digits_end(src, st, literal_radix(src, p));
        if st < e && value_of(src.subrange(st, e), literal_radix(src, p)) <= u32::MAX {
            Some(e)
        } else {
            None
        }
    } else {
        None
    }
}

proof fn lemma_digits_end(src: Seq<u8>, q: int, radix: nat)
    requires
        0 <= q <= src.len(),
    ensures
        q <= digits_end(src, q, radix) <= src.len(),
        all_digits(src.subrange(q, digits_end(src, q, radix)), radix),
        digits_end(src, q, radix) == src.len() || digit_of(src[digits_end(src, q, radix)], radix) is None,
        forall|e: int| q <= e <= src.len() && all_digits(src.subrange(q, e), radix) && (e == src.len() || digit_of(src[e], radix) is None)
            ==> e == digits_end(src, q, radix),
    decreases src.len() - q,
{
    let d = digits_end(src, q, radix);
    if 0 <= q < src.len() && digit_of(src[q], radix) is Some {
        lemma_digits_end(src, q + 1, radix);
        assert forall|i: int| 0 <= i < src.subrange(q, d).len() implies (#[trigger] digit_of(src.subrange(q, d)[i], radix)) is Some by {
            if i > 0 {
                assert(src.subrange(q, d)[i] == src.subrange(q + 1, d)[i - 1]);
            }
        }
    }
    assert forall|e: int| q <= e <= src.len() && all_digits(src.subrange(q, e), radix) && (e == src.len() || digit_of(src[e], radix) is None)
        implies e == d by {
        if e < d {
            assert(digit_of(src.subrange(q, d)[e - q], radix) is Some);
        } else if e > d {
            assert(digit_of(src.subrange(q, e)[d - q], radix) is Some);
        }
    }
}

/// The value of a digit.
fn digit(c: u8, radix: u64) -> (r: Option<u32>)
    requires
        radix == 10 || radix == 16,
    ensures
        r matches Some(v) ==> digit_of(c, radix as nat) == Some(v as nat) && v < radix,
        r is None ==> digit_of(c, radix as nat) is None,
{
    if 48 <= c && c <= 57 {
        Some((c - 48) as u32)
    } else if radix == 16 && 97 <= c && c <= 102 {
        Some((c - 87) as u32)
    } else if radix == 16 && 65 <= c && c <= 70 {
        Some((c - 55) as u32)
    } else {
        None
    }
}

proof fn lemma_value_prefix(s: Seq<u8>, k: int, radix: nat)
    requires
        0 <= k <= s.len(),
        radix >= 1,
    ensures
        value_of(s.subrange(0, k), radix) <= value_of(s, radix),
    decreases s.len() - k,
{
    if k < s.len() {
        lemma_value_prefix(s, k + 1, radix);
        let t = s.subrange(0, k + 1);
        assert(t.drop_last() =~= s.subrange(0, k));
        assert(value_of(t.drop_last(), radix) * radix >= value_of(t.drop_last(), radix)) by (nonlinear_arith)
            requires
                radix >= 1,
        ;
    } else {
        assert(s.subrange(0, k) =~= s);
    }
}

/// Copies the bytes `[lo, hi)` of the text.
fn slice_to_vec(src: &[u8], lo: usize, hi: usize) -> (r: Vec<u8>)
    requires
        lo <= hi <= src@.len(),
    ensures
        r@ == src@.subrange(lo as int, hi as int),
{
    let mut v: Vec<u8> = Vec::new();
    let mut i = lo;
    while i < hi
        invariant
            lo <= i <= hi <= src@.len(),
            v@ == src@.subrange(lo as int, i as int),
        decreases hi - i,
    {
        v.push(src[i]);
        proof {
            assert(v@ =~= src@.subrange(lo as int, i as int + 1));
        }
        i = i + 1;
    }
    v
}

/// An integer literal at `pos`: decimal digits, or hexadecimal digits
/// after `0x`, as many as follow; its value and the position after it.
/// It fails when no digit stands at `pos` or after `0x`, or when the
/// value does not fit in 32 bits.
pub fn parse_int(src: &[u8], pos: usize) -> (r: Result<(u32, usize), Diagnostic>)
    requires
        pos <= src@.len(),
    ensures
        step_ok(r, pos, src@.len()),
        r matches Ok((v, p)) ==> pos < src@.len() && is_digit(src@[pos as int]) && literal_end(src@, pos as int, p as int)
            && literal_start(src@, pos as int) < p && v as nat == value_of(
            src@.subrange(literal_start(src@, pos as int), p as int),
            literal_radix(src@, pos as int),
        ),
        r matches Ok((v, _)) ==> int_at(src@, pos as int, v),
        r matches Ok((_, p)) ==> int_lit(src@, pos as int) == Some(p as int),
        r is Err ==> int_lit(src@, pos as int) is None,
        r matches Ok((v, _)) ==> v == int_val(src@, pos as int),
        r is Err ==> pos == src@.len() || !is_digit(src@[pos as int]) || forall|p: int| #[trigger] literal_end(src@, pos as int, p)
            ==> p == literal_start(src@, pos as int) || value_of(
            src@.subrange(literal_start(src@, pos as int), p),
            literal_radix(src@, pos as int),
        ) > u32::MAX,
{
    if pos >= src.len() || !(48 <= src[pos] && src[pos] <= 57) {
        return Err(unexpected(src, pos));
    }
    let mut radix: u64 = 10;
    let mut p = pos;
    if src[pos] == 48 && pos + 1 < src.len() && (src[pos + 1] == 120 || src[pos + 1] == 88) {
        radix = 16;
        p = pos + 2;
    }
    let start = p;
    let ghost rad = literal_radix(src@, pos as int);
    proof {
        lemma_digits_end(src@, start as int, rad);
        assert(literal_end(src@, pos as int, digits_end(src@, start as int, rad)));
    }
    let mut acc: u64 = 0;
    proof {
        assert(src@.subrange(start as int, start as int) =~= Seq::<u8>::empty());
    }
    while p < src.len()
        invariant
            pos <= start <= p <= src@.len(),
            start == literal_start(src@, pos as int),
            radix == rad,
            rad == literal_radix(src@, pos as int),
            radix == 10 || radix == 16,
            acc <= 0xffff_ffff,
            all_digits(src@.subrange(start as int, p as int), rad),
            acc as nat == value_of(src@.subrange(start as int, p as int), rad),
        ensures
            pos <= start <= p <= src@.len(),
            acc <= 0xffff_ffff,
            all_digits(src@.subrange(start as int, p as int), rad),
            acc as nat == value_of(src@.subrange(start as int, p as int), rad),
            p == src@.len() || digit_of(src@[p as int], rad) is None,
        decreases src@.len() - p,
    {
        let d = match digit(src[p], radix) {
            Some(v) => v,
            None => {
                break ;
            },
        };
        proof {
            let t = src@.subrange(start as int, p as int + 1);
            assert(t.drop_last() =~= src@.subrange(start as int, p as int));
            assert(t.last() == src@[p as int]);
            assert(acc * radix + d <= 0xffff_ffff * 16 + 15) by (nonlinear_arith)
                requires
                    acc <= 0xffff_ffff,
                    radix <= 16,
                    d < 16,
            ;
        }
        acc = acc * radix + d as u64;
        if acc > 0xffff_ffff {
            let e = scan_digits_end(src, p + 1);
            proof {
                assert forall|q: int| #[trigger] literal_end(src@, pos as int, q) implies q == start
                    || value_of(src@.subrange(start as int, q), rad) > u32::MAX by {
                    if q <= p {
                        assert(digit_of(src@[p as int], rad) is Some);
                        assert(q < p ==> digit_of(src@.subrange(start as int, p as int)[q - start], rad) is Some);
                    } else {
                        let full = src@.subrange(start as int, q);
                        lemma_value_prefix(full, p + 1 - start, rad);
                        assert(full.subrange(0, p + 1 - start) =~= src@.subrange(start as int, p as int + 1));
                    }
                }
                let e = digits_end(src@, start as int, rad);
                lemma_digits_end(src@, start as int, rad);
                assert(literal_end(src@, pos as int, e));
                assert(e > p) by {
                    assert(digit_of(src@[p as int], rad) is Some);
                    if e < p {
                        assert(digit_of(src@.subrange(start as int, p as int)[e - start], rad) is Some);
                    }
                }
                assert(value_of(src@.subrange(start as int, e), rad) > u32::MAX);
            }
            return Err(syntax_error(SyntaxKind::IntegerTooLarge, pos, e));
        }
        p = p + 1;
    }
    if p == start {
        proof {
            assert forall|q: int| #[trigger] literal_end(src@, pos as int, q) implies q == start by {
                if q > start {
                    assert(digit_of(src@.subrange(start as int, q)[p - start], rad) is Some);
                }
            }
        }
        return Err(syntax_error(SyntaxKind::UnexpectedToken, pos, p));
    }
    proof {
        assert(literal_end(src@, pos as int, p as int));
    }
    Ok((acc as u32, p))
}

/// End of the run of alphanumeric bytes from `pos`.
fn scan_digits_end(src: &[u8], pos: usize) -> (r: usize)
    requires
        pos <= src@.len(),
    ensures
        pos <= r <= src@.len(),
{
    let mut p = pos;
    while p < src.len() && is_ident_char_exec(src[p])
        invariant
            pos <= p <= src@.len(),
        decreases src@.len() - p,
    {
        p = p + 1;
    }
    p
}

/// The byte `c` at `pos`, after white space; the position after it.
fn expect_byte(src: &[u8], pos: usize, c: u8) -> (r: Result<usize, Diagnostic>)
    requires
        pos <= src@.len(),
    ensures
        r matches Ok(p) ==> pos < p <= src@.len() && p == ws_end(src@, pos as int) + 1,
        r is Ok <==> ws_end(src@, pos as int) < src@.len() && src@[ws_end(src@, pos as int)] == c,
        r matches Ok(p) ==> tok(src@, pos as int, c) == Some(p as int),
        r is Err ==> tok(src@, pos as int, c) is None,
        r matches Err(d) ==> syntax_error_in(d, src@.len()),
{
    let p = skip_ws(src, pos);
    if p < src.len() && src[p] == c {
        Ok(p + 1)
    } else {
        Err(unexpected(src, p))
    }
}

/// `=>` after white space; the position after it.
fn expect_arrow(src: &[u8], pos: usize) -> (r: Result<usize, Diagnostic>)
    requires
        pos <= src@.len(),
    ensures
        r matches Ok(p) ==> pos < p <= src@.len() && p == ws_end(src@, pos as int) + 2,
        r is Ok <==> ws_end(src@, pos as int) + 1 < src@.len() && src@[ws_end(src@, pos as int)] == 61
            && src@[ws_end(src@, pos as int) + 1] == 62,
        r matches Ok(p) ==> arrow(src@, pos as int) == Some(p as int),
        r is Err ==> arrow(src@, pos as int) is None,
        r matches Err(d) ==> syntax_error_in(d, src@.len()),
{
    let p = expect_byte(src, pos, 61)?;
    if p < src.len() && src[p] == 62 {
        Ok(p + 1)
    } else {
        Err(unexpected(src, p))
    }
}

/// A name after white space, with its span.
fn expect_ident(src: &[u8], pos: usize) -> (r: Result<(Vec<u8>, Span), Diagnostic>)
    requires
        pos <= src@.len(),
    ensures
        r matches Ok((n, s)) ==> is_ident(n@) && pos <= s.lo < s.hi <= src@.len() && n@ == src@.subrange(
            s.lo as int,
            s.hi as int,
        ) && s.lo == ws_end(src@, pos as int) && (s.hi == src@.len() || !is_ident_char(src@[s.hi as int])),
        r is Ok <==> ws_end(src@, pos as int) < src@.len() && is_ident_start(src@[ws_end(src@, pos as int)]),
        r matches Ok((_, s)) ==> ident_tok(src@, pos as int) == Some(s.hi as int),
        r is Err ==> ident_tok(src@, pos as int) is None,
        r matches Err(d) ==> syntax_error_in(d, src@.len()),
{
    let p = skip_ws(src, pos);
    let e = scan_ident(src, p);
    if e == p {
        return Err(unexpected(src, p));
    }
    Ok((slice_to_vec(src, p, e), Span { lo: p, hi: e }))
}

/// An integer after white space.
fn expect_int(src: &[u8], pos: usize) -> (r: Result<(u32, usize), Diagnostic>)
    requires
        pos <= src@.len(),
    ensures
        step_ok(r, pos, src@.len()),
        r matches Ok((v, p)) ==> int_tok(src@, pos as int) == Some(p as int) && int_at(
            src@,
            ws_end(src@, pos as int),
            v,
        ),
        r is Err ==> int_tok(src@, pos as int) is None,
        r matches Ok((v, _)) ==> v == int_val(src@, ws_end(src@, pos as int)),
{
    let p = skip_ws(src, pos);
    parse_int(src, p)
}

/// `[ INT ]` after white space when it is there: its count, else 1.
fn optional_count(src: &[u8], pos: usize) -> (r: Result<(u32, bool, usize), Diagnostic>)
    requires
        pos <= src@.len(),
    ensures
        r matches Ok((_, _, p)) ==> pos <= p <= src@.len() && count_opt(src@, pos as int) == Some(p as int),
        r is Err ==> count_opt(src@, pos as int) is None,
        r matches Ok((n, a, _)) ==> (n, a) == count_val(src@, pos as int),
        r matches Err(d) ==> syntax_error_in(d, src@.len()),
{
    let p = skip_ws(src, pos);
    if p < src.len() && src[p] == 91 {
        let (n, q) = expect_int(src, p + 1)?;
        let q = expect_byte(src, q, 93)?;
        Ok((n, true, q))
    } else {
        Ok((1, false, pos))
    }
}

/// `ro`, `wo`, or anything else, as an access mode.
fn access_of(name: &Vec<u8>) -> (r: Option<Access>)
    ensures
        r == (if name@ == seq![114u8, 111u8] {
            Some(Access::ReadOnly)
        } else if name@ == seq![119u8, 111u8] {
            Some(Access::WriteOnly)
        } else {
            None::<Access>
        }),
{
    if name.len() == 2 && name[0] == 114 && name[1] == 111 {
        proof {
            assert(name@ =~= seq![114u8, 111u8]);
        }
        Some(Access::ReadOnly)
    } else if name.len() == 2 && name[0] == 119 && name[1] == 111 {
        proof {
            assert(name@ =~= seq![119u8, 111u8]);
        }
        Some(Access::WriteOnly)
    } else {
        None
    }
}

/// The variants of an enumerated field, after its `{`, up to and
/// including the closing `}`.
fn parse_variants(src: &[u8], pos: usize) -> (r: Result<(Vec<Variant>, usize), Diagnostic>)
    requires
        pos <= src@.len(),
    ensures
        step_ok(r, pos, src@.len()),
        r matches Ok((vs, _)) ==> forall|i: int| 0 <= i < vs@.len() ==> is_ident(#[trigger] vs@[i].name@),
        r matches Ok((vs, _)) ==> forall|i: int| 0 <= i < vs@.len() ==> span_in(#[trigger] vs@[i].span, src@.len()),
        r matches Ok((vs, _)) ==> forall|i: int| 0 <= i < vs@.len() ==> int_at(src@, (#[trigger] vs@[i]).span.lo as int, vs@[i].code),
        r matches Ok((_, p)) ==> variants_syn(src@, pos as int) == Some(p as int),
        r is Err ==> variants_syn(src@, pos as int) is None,
        r matches Ok((vs, _)) ==> variants_are(vs@, variants_val(src@, pos as int)),
{
    let mut vs: Vec<Variant> = Vec::new();
    let mut p = pos;
    let ghost mut pre: Seq<VariantV> = Seq::empty();
    loop
        invariant
            variants_are(vs@, pre),
            variants_val(src@, pos as int) == pre + variants_val(src@, p as int),
            pos <= p <= src@.len(),
            forall|i: int| 0 <= i < vs@.len() ==> is_ident(#[trigger] vs@[i].name@),
            forall|i: int| 0 <= i < vs@.len() ==> span_in(#[trigger] vs@[i].span, src@.len()),
            forall|i: int| 0 <= i < vs@.len() ==> int_at(src@, (#[trigger] vs@[i]).span.lo as int, vs@[i].code),
            variants_syn(src@, p as int) == variants_syn(src@, pos as int),
        decreases src@.len() - p,
    {
        let lo = skip_ws(src, p);
        if lo < src.len() && src[lo] == 125 {
            proof {
                assert(pre + variants_val(src@, p as int) =~= pre);
            }
            return Ok((vs, lo + 1));
        }
        let (code, q) = parse_int(src, lo)?;
        let q = expect_arrow(src, q)?;
        let (name, ns) = expect_ident(src, q)?;
        let ghost v = VariantV { code, name: name@, span: Span { lo, hi: ns.hi } };
        vs.push(Variant { code, name, span: Span { lo, hi: ns.hi } });
        proof {
            pre = pre.push(v);
        }
        let q = skip_ws(src, ns.hi);
        if q < src.len() && src[q] == 44 {
            proof {
                assert(variants_val(src@, p as int) == seq![v] + variants_val(src@, q + 1));
                assert(pre.drop_last() + (seq![v] + variants_val(src@, q + 1)) =~= pre + variants_val(src@, q + 1));
            }
            p = q + 1;
        } else if q < src.len() && src[q] == 125 {
            proof {
                assert(variants_val(src@, p as int) == seq![v]);
                assert(pre.drop_last() + seq![v] =~= pre);
            }
            return Ok((vs, q + 1));
        } else {
            return Err(unexpected(src, q));
        }
    }
}

/// One field: its bits, name, element count, access mode and variants.
fn parse_field(src: &[u8], pos: usize) -> (r: Result<(Field, usize), Diagnostic>)
    requires
        pos <= src@.len(),
    ensures
        step_ok(r, pos, src@.len()),
        r matches Ok((f, _)) ==> is_ident(f.name@) && field_spans_in(f, src@.len()) && field_text(f, src@),
        r matches Ok((_, p)) ==> field_syn(src@, pos as int) == Some(p as int),
        r is Err ==> field_syn(src@, pos as int) is None,
        r matches Ok((f, _)) ==> field_is(f, field_val(src@, pos as int)),
{
    let lo = skip_ws(src, pos);
    let (first, p) = parse_int(src, lo)?;
    let mut last = first;
    let mut p = p;
    if p < src.len() && src[p] == 46 {
        if p + 1 < src.len() && src[p + 1] == 46 {
            match parse_int(src, p + 2) {
                Ok((n, q)) => {
                    last = n;
                    p = q;
                },
                Err(_) => {
                    return Err(syntax_error(SyntaxKind::MalformedBits, lo, p + 2));
                },
            }
        } else {
            return Err(syntax_error(SyntaxKind::MalformedBits, lo, p + 1));
        }
    }
    let p = expect_arrow(src, p)?;
    let (name, ns) = expect_ident(src, p)?;
    let (count, is_array, p) = optional_count(src, ns.hi)?;
    let mut access = Access::ReadWrite;
    let mut p = p;
    let q = skip_ws(src, p);
    if q < src.len() && src[q] == 58 {
        let a = skip_ws(src, q + 1);
        let e = scan_ident(src, a);
        let word = slice_to_vec(src, a, e);
        match access_of(&word) {
            Some(m) => {
                access = m;
            },
            None => {
                return Err(syntax_error(SyntaxKind::UnknownAccess, a, e));
            },
        }
        p = e;
    }
    let mut variants: Vec<Variant> = Vec::new();
    let q = skip_ws(src, p);
    if q < src.len() && src[q] == 123 {
        let (vs, e) = parse_variants(src, q + 1)?;
        variants = vs;
        p = e;
    }
    Ok((Field { name, span: Span { lo, hi: p }, first, last, count, is_array, access, variants }, p))
}

/// The fields of a register, after its `{`, up to and including the
/// closing `}`.
fn parse_fields(src: &[u8], pos: usize) -> (r: Result<(Vec<Field>, usize), Diagnostic>)
    requires
        pos <= src@.len(),
    ensures
        step_ok(r, pos, src@.len()),
        r matches Ok((fs, _)) ==> forall|i: int| 0 <= i < fs@.len() ==> is_ident(#[trigger] fs@[i].name@),
        r matches Ok((fs, _)) ==> forall|i: int| 0 <= i < fs@.len() ==> field_spans_in(#[trigger] fs@[i], src@.len()),
        r matches Ok((fs, _)) ==> forall|i: int| 0 <= i < fs@.len() ==> field_text(#[trigger] fs@[i], src@),
        r matches Ok((_, p)) ==> fields_syn(src@, pos as int) == Some(p as int),
        r is Err ==> fields_syn(src@, pos as int) is None,
        r matches Ok((fs, _)) ==> fields_are(fs@, fields_val(src@, pos as int)),
{
    let mut fs: Vec<Field> = Vec::new();
    let mut p = pos;
    let ghost mut pre: Seq<FieldV> = Seq::empty();
    loop
        invariant
            fields_are(fs@, pre),
            fields_val(src@, pos as int) == pre + fields_val(src@, p as int),
            pos <= p <= src@.len(),
            forall|i: int| 0 <= i < fs@.len() ==> is_ident(#[trigger] fs@[i].name@),
            forall|i: int| 0 <= i < fs@.len() ==> field_spans_in(#[trigger] fs@[i], src@.len()),
            forall|i: int| 0 <= i < fs@.len() ==> field_text(#[trigger] fs@[i], src@),
            fields_syn(src@, p as int) == fields_syn(src@, pos as int),
        decreases src@.len() - p,
    {
        let q = skip_ws(src, p);
        if q < src.len() && src[q] == 125 {
            proof {
                assert(pre + fields_val(src@, p as int) =~= pre);
            }
            return Ok((fs, q + 1));
        }
        let ghost at = q;
        let (f, q) = parse_field(src, q)?;
        let ghost v = field_val(src@, at as int);
        fs.push(f);
        proof {
            pre = pre.push(v);
        }
        let q = skip_ws(src, q);
        if q < src.len() && src[q] == 44 {
            proof {
                assert(fields_val(src@, p as int) == seq![v] + fields_val(src@, q + 1));
                assert(pre.drop_last() + (seq![v] + fields_val(src@, q + 1)) =~= pre + fields_val(src@, q + 1));
            }
            p = q + 1;
        } else if q < src.len() && src[q] == 125 {
            proof {
                assert(fields_val(src@, p as int) == seq![v]);
                assert(pre.drop_last() + seq![v] =~= pre);
            }
            return Ok((fs, q + 1));
        } else {
            return Err(unexpected(src, q));
        }
    }
}

/// The keyword of an entry: `group` (`Some(None)`), or `reg` followed
/// by the decimal digits of a width that fits in 32 bits (`Some(Some(w))`).
fn keyword_width(word: &Vec<u8>) -> (r: Option<Option<u32>>)
    ensures
        r == Some(None::<u32>) <==> word@ == group_word(),
        (r matches Some(Some(_))) <==> (word@ != group_word() && word@.len() >= 3 && word@[0] == 114
            && word@[1] == 101 && word@[2] == 103 && all_digits(word@.subrange(3, word@.len() as int), 10)
            && value_of(word@.subrange(3, word@.len() as int), 10) <= u32::MAX),
        r matches Some(Some(w)) ==> w as nat == value_of(word@.subrange(3, word@.len() as int), 10),
{
    if word.len() == 5 && word[0] == 103 && word[1] == 114 && word[2] == 111 && word[3] == 117
        && word[4] == 112 {
        proof {
            assert(word@ =~= group_word());
        }
        return Some(None);
    }
    proof {
        if word@ == group_word() {
            assert(word@.len() == 5);
        }
    }
    if word.len() < 3 || word[0] != 114 || word[1] != 101 || word[2] != 103 {
        return None;
    }
    let mut acc: u64 = 0;
    let mut i: usize = 3;
    proof {
        assert(word@.subrange(3, 3) =~= Seq::<u8>::empty());
    }
    while i < word.len()
        invariant
            3 <= i <= word@.len(),
            word@.len() >= 3,
            word@ != group_word(),
            acc <= 0xffff_ffff,
            all_digits(word@.subrange(3, i as int), 10),
            acc as nat == value_of(word@.subrange(3, i as int), 10),
        decreases word@.len() - i,
    {
        let c = word[i];
        if !(48 <= c && c <= 57) {
            proof {
                assert(digit_of(word@.subrange(3, word@.len() as int)[i - 3], 10) is None);
            }
            return None;
        }
        proof {
            let t = word@.subrange(3, i as int + 1);
            assert(t.drop_last() =~= word@.subrange(3, i as int));
            assert(t.last() == c);
        }
        acc = acc * 10 + (c - 48) as u64;
        if acc > 0xffff_ffff {
            proof {
                let full = word@.subrange(3, word@.len() as int);
                lemma_value_prefix(full, i + 1 - 3, 10);
                assert(full.subrange(0, i + 1 - 3) =~= word@.subrange(3, i as int + 1));
            }
            return None;
        }
        i = i + 1;
    }
    Some(Some(acc as u32))
}

/// One entry: `INT => reg.. NAME ...` or `INT => group NAME[N] { ... }`.
#[verifier::rlimit(100)]
#[verifier::spinoff_prover]
fn parse_entry(src: &[u8], pos: usize) -> (r: Result<(Reg, usize), Diagnostic>)
    requires
        pos <= src@.len(),
    ensures
        step_ok(r, pos, src@.len()),
        r matches Ok((e, _)) ==> is_ident(e.name@) && reg_spans_in(e, src@.len()) && reg_text(e, src@),
        r matches Ok((_, p)) ==> entry_syn(src@, pos as int) == Some(p as int),
        r is Err ==> entry_syn(src@, pos as int) is None,
        r matches Ok((e, _)) ==> reg_is(e, entry_val(src@, pos as int)),
    decreases src@.len() - pos, 0usize,
{
    let lo = skip_ws(src, pos);
    let (offset, p) = parse_int(src, lo)?;
    let p = expect_arrow(src, p)?;
    let k = skip_ws(src, p);
    let ke = scan_ident(src, k);
    let word = slice_to_vec(src, k, ke);
    if word.len() == 3 && word[0] == 114 && word[1] == 101 && word[2] == 103 {
        return Err(syntax_error(SyntaxKind::MissingWidth, k, ke));
    }
    match keyword_width(&word) {
        Some(None) => {
            let (name, ns) = expect_ident(src, ke)?;
            let p = expect_byte(src, ns.hi, 91)?;
            let (count, p) = expect_int(src, p)?;
            let p = expect_byte(src, p, 93)?;
            let p = expect_byte(src, p, 123)?;
            let (regs, p) = parse_entries(src, p)?;
            let p = expect_byte(src, p, 125)?;
            Ok((Reg { name, span: Span { lo, hi: p }, offset, count, is_array: true, ty: RegType::Group(regs) }, p))
        },
        Some(Some(width)) => {
            let (name, ns) = expect_ident(src, ke)?;
            let (count, is_array, p) = optional_count(src, ns.hi)?;
            let p = expect_byte(src, p, 123)?;
            let (fields, p) = parse_fields(src, p)?;
            Ok((Reg { name, span: Span { lo, hi: p }, offset, count, is_array, ty: RegType::Prim(width, fields) }, p))
        },
        None => Err(unexpected(src, k)),
    }
}

/// Entries up to a closing `}`, which is left in place.
fn parse_entries(src: &[u8], pos: usize) -> (r: Result<(Vec<Reg>, usize), Diagnostic>)
    requires
        pos <= src@.len(),
    ensures
        r matches Ok((es, p)) ==> pos <= p < src@.len() && src@[p as int] == 125u8
            && forall|i: int| 0 <= i < es@.len() ==> is_ident(#[trigger] es@[i].name@),
        r matches Ok((es, _)) ==> forall|i: int| 0 <= i < es@.len() ==> reg_spans_in(#[trigger] es@[i], src@.len()),
        r matches Ok((es, _)) ==> forall|i: int| 0 <= i < es@.len() ==> reg_text(#[trigger] es@[i], src@),
        r matches Ok((_, p)) ==> entries_syn(src@, pos as int) == Some(p as int),
        r is Err ==> entries_syn(src@, pos as int) is None,
        r matches Ok((es, _)) ==> regs_are(es@, entries_val(src@, pos as int)),
        r matches Err(d) ==> syntax_error_in(d, src@.len()),
    decreases src@.len() - pos, 1usize,
{
    let mut es: Vec<Reg> = Vec::new();
    let mut p = pos;
    let ghost mut pre: Seq<RegV> = Seq::empty();
    loop
        invariant
            pos <= p <= src@.len(),
            forall|i: int| 0 <= i < es@.len() ==> is_ident(#[trigger] es@[i].name@),
            forall|i: int| 0 <= i < es@.len() ==> reg_spans_in(#[trigger] es@[i], src@.len()),
            forall|i: int| 0 <= i < es@.len() ==> reg_text(#[trigger] es@[i], src@),
            entries_syn(src@, p as int) == entries_syn(src@, pos as int),
            regs_are(es@, pre),
            entries_val(src@, pos as int) == pre + entries_val(src@, p as int),
        decreases src@.len() - p,
    {
        let q = skip_ws(src, p);
        if q >= src.len() {
            return Err(unexpected(src, q));
        }
        if src[q] == 125 {
            proof {
                assert(pre + entries_val(src@, p as int) =~= pre);
            }
            return Ok((es, q));
        }
        let ghost at = q;
        let (e, q) = parse_entry(src, q)?;
        let ghost v = entry_val(src@, at as int);
        es.push(e);
        proof {
            assert(entries_val(src@, p as int) == seq![v] + entries_val(src@, q as int));
            assert(pre + (seq![v] + entries_val(src@, q as int)) =~= pre.push(v) + entries_val(src@, q as int));
            pre = pre.push(v);
        }
        p = q;
    }
}

/// Parses a register block: it succeeds exactly on the texts that the
/// grammar accepts (`block_syn`), with the tree the grammar gives them
/// (`parsed`). Every error is a syntax error located in
/// the text; the names in the tree are identifiers, every span in it lies
/// within the text, and the offsets, bit numbers and codes in it are the
/// values of the literals their declarations start with.
pub fn parse(src: &[u8]) -> (r: Result<RegBlock, Diagnostic>)
    ensures
        r matches Ok(b) ==> is_ident(b.name@) && forall|i: int|
            0 <= i < b.entries@.len() ==> is_ident(#[trigger] b.entries@[i].name@),
        r matches Ok(b) ==> span_in(b.span, src@.len()) && forall|i: int|
            0 <= i < b.entries@.len() ==> reg_spans_in(#[trigger] b.entries@[i], src@.len()),
        r is Ok <==> block_syn(src@),
        r matches Ok(b) ==> block_is(b, parsed(src@)),
        r matches Ok(b) ==> b.name@ == src@.subrange(b.span.lo as int, (b.span.lo + b.name@.len()) as int)
            && forall|i: int| 0 <= i < b.entries@.len() ==> reg_text(#[trigger] b.entries@[i], src@),
        r matches Err(d) ==> syntax_error_in(d, src@.len()),
{
    let (name, ns) = expect_ident(src, 0)?;
    let p = expect_byte(src, ns.hi, 61)?;
    let p = expect_byte(src, p, 123)?;
    let (entries, p) = parse_entries(src, p)?;
    let end = expect_byte(src, p, 125)?;
    let q = skip_ws(src, end);
    if q < src.len() {
        return Err(unexpected(src, q));
    }
    Ok(RegBlock { name, span: Span { lo: ns.lo, hi: end }, entries })
}

} // verus!
