//! Runtime side of the register accessors: reading a field out of a word,
//! writing a field into a word, registers with read-modify-write setters,
//! snapshots, and decoding of enumerated fields.
use crate::layout::{low_mask, IndexError, RegWidth};
use vstd::prelude::*;

verus! {

/// Value of the field `width` bits wide at `shift` in `word`.
pub open spec fn extract(word: u32, shift: u32, width: u32) -> u32 {
    (word >> shift) & low_mask(width)
}

/// Bits of a word covered by the field `width` bits wide at `shift`.
pub open spec fn field_bits(shift: u32, width: u32) -> u32 {
    low_mask(width) << shift
}

/// `word` with the field at `shift` replaced by `value` (cut to the field's
/// width), all other bits kept.
pub open spec fn insert(word: u32, shift: u32, width: u32, value: u32) -> u32 {
    (word & !field_bits(shift, width)) | ((value & low_mask(width)) << shift)
}

/// A word that uses no bit at or above `bits`.
pub open spec fn fits_width(word: u32, bits: u32) -> bool {
    word & !low_mask(bits) == 0
}

/// A field placement that lies within a word of `bits` bits.
pub open spec fn field_in_word(shift: u32, width: u32, bits: u32) -> bool {
    1 <= width && bits <= 32 && shift + width <= bits
}

/// Writing a value that fits a field and reading the field back gives the
/// value, whatever the register's width; the bits outside the field are those of the word before; a word
/// that fit its register width still does.
pub proof fn lemma_insert_extract(word: u32, shift: u32, width: u32, value: u32, bits: u32)
    requires
        field_in_word(shift, width, bits),
    ensures
        value <= low_mask(width) ==> extract(insert(word, shift, width, value), shift, width)
            == value,
        insert(word, shift, width, value) & !field_bits(shift, width) == word & !field_bits(
            shift,
            width,
        ),
        fits_width(word, bits) ==> fits_width(insert(word, shift, width, value), bits),
{
    assert(1 <= width && bits <= 32 && shift + width <= bits && value <= low_mask(width) ==> ((((
    word & !(low_mask(width) << shift)) | ((value & low_mask(width)) << shift)) >> shift) & low_mask(
        width,
    )) == value) by (bit_vector);
    assert(1 <= width && bits <= 32 && shift + width <= bits ==> ((word & !(low_mask(width)
        << shift)) | ((value & low_mask(width)) << shift)) & !(low_mask(width) << shift) == word
        & !(low_mask(width) << shift)) by (bit_vector);
    assert(1 <= width && bits <= 32 && shift + width <= bits && word & !low_mask(bits) == 0 ==> ((
    word & !(low_mask(width) << shift)) | ((value & low_mask(width)) << shift)) & !low_mask(bits)
        == 0) by (bit_vector);
}

/// Reads the field `width` bits wide at `shift`: `(word >> shift) & mask`.
pub fn extract_field(word: u32, shift: u32, width: u32) -> (r: u32)
    requires
        field_in_word(shift, width, 32),
    ensures
        r == extract(word, shift, width),
        r <= low_mask(width),
{
    let m = crate::layout::mask(width);
    proof {
        assert(m == low_mask(width));
        assert(((word >> shift) & m) <= m) by (bit_vector);
    }
    (word >> shift) & m
}

/// Writes `value` into the field at `shift`:
/// `(word & !(mask << shift)) | ((value & mask) << shift)`.
pub fn insert_field(word: u32, shift: u32, width: u32, value: u32) -> (r: u32)
    requires
        field_in_word(shift, width, 32),
    ensures
        r == insert(word, shift, width, value),
{
    let m = crate::layout::mask(width);
    (word & !(m << shift)) | ((value & m) << shift)
}

/// Placement of a field in its register: `count` elements, each `width`
/// bits wide, from `low_bit` up (a plain field has `count == 1`).
#[derive(Clone, Copy, Debug, PartialEq, Eq, Structural)]
pub struct FieldLayout {
    pub low_bit: u32,
    pub width: u32,
    pub count: u32,
}

impl FieldLayout {
    /// The field lies within a word of `bits` bits.
    pub open spec fn wf(self, bits: u32) -> bool {
        &&& 1 <= self.width
        &&& 1 <= self.count
        &&& bits <= 32
        &&& self.low_bit + self.width * self.count <= bits
    }

    /// Shift of element `index`.
    pub open spec fn shift_of(self, index: u32) -> u32 {
        (self.low_bit + index * self.width) as u32
    }

    proof fn lemma_element_in_word(self, bits: u32, index: u32)
        requires
            self.wf(bits),
            index < self.count,
        ensures
            field_in_word(self.shift_of(index), self.width, bits),
            self.shift_of(index) == self.low_bit + index * self.width,
    {
        assert((index + 1) * self.width <= self.width * self.count) by (nonlinear_arith)
            requires
                index + 1 <= self.count,
        ;
        assert((index + 1) * self.width == index * self.width + self.width) by (nonlinear_arith);
        assert(0 <= index * self.width) by (nonlinear_arith);
        assert(self.low_bit + index * self.width + self.width <= bits);
        assert(self.shift_of(index) == self.low_bit + index * self.width);
    }

    /// Shift of element `index`, or `IndexError` when `index >= count`.
    pub fn element_shift(&self, index: u32) -> (r: Result<u32, IndexError>)
        requires
            self.wf(32),
        ensures
            index < self.count ==> r == Ok::<u32, IndexError>(self.shift_of(index)),
            index >= self.count ==> r == Err::<u32, IndexError>(
                IndexError { index: index as usize, count: self.count as usize },
            ),
    {
        if index >= self.count {
            return Err(IndexError { index: index as usize, count: self.count as usize });
        }
        proof {
            self.lemma_element_in_word(32, index);
        }
        Ok(crate::layout::shift(self.low_bit, self.width, Some(index)))
    }
}

/// A single hardware sample of a register, decoded without further access.
#[derive(Clone, Copy, Debug, PartialEq, Eq, Structural)]
pub struct Snapshot {
    pub word: u32,
}

impl Snapshot {
    /// The raw word that was read.
    pub fn raw(&self) -> (r: u32)
        ensures
            r == self.word,
    {
        self.word
    }

    /// Value of a plain field, or of element 0 of a field array.
    pub fn field(&self, f: FieldLayout) -> (r: u32)
        requires
            f.wf(32),
        ensures
            r == extract(self.word, f.low_bit, f.width),
    {
        proof {
            f.lemma_element_in_word(32, 0);
        }
        extract_field(self.word, f.low_bit, f.width)
    }

    /// Value of element `index` of a field array; `IndexError` when the
    /// index is at or beyond the element count.
    pub fn field_at(&self, f: FieldLayout, index: u32) -> (r: Result<u32, IndexError>)
        requires
            f.wf(32),
        ensures
            index < f.count ==> r == Ok::<u32, IndexError>(
                extract(self.word, f.shift_of(index), f.width),
            ),
            index >= f.count ==> r == Err::<u32, IndexError>(
                IndexError { index: index as usize, count: f.count as usize },
            ),
    {
        match f.element_shift(index) {
            Ok(s) => {
                proof {
                    f.lemma_element_in_word(32, index);
                }
                Ok(extract_field(self.word, s, f.width))
            },
            Err(e) => Err(e),
        }
    }
}

/// A register word of a given width, written and read whole; setters on
/// it perform one read, one modification and one write of the word.
pub struct Register {
    word: u32,
    width: RegWidth,
}

impl View for Register {
    type V = u32;

    closed spec fn view(&self) -> u32 {
        self.word
    }
}

impl Register {
    /// Width of the register.
    pub closed spec fn spec_width(&self) -> RegWidth {
        self.width
    }

    /// The word uses no bit above the register's width.
    pub open spec fn wf(&self) -> bool {
        fits_width(self@, self.spec_width().spec_bits())
    }

    /// A register of `width` holding `word`.
    pub fn new(width: RegWidth, word: u32) -> (r: Register)
        requires
            fits_width(word, width.spec_bits()),
        ensures
            r@ == word,
            r.spec_width() == width,
            r.wf(),
    {
        Register { word, width }
    }

    pub fn width(&self) -> (r: RegWidth)
        ensures
            r == self.spec_width(),
    {
        self.width
    }

    /// One read of the whole word.
    pub fn get(&self) -> (r: Snapshot)
        ensures
            r.word == self@,
    {
        Snapshot { word: self.word }
    }

    /// Writes the whole word, bypassing fields.
    pub fn set(&mut self, word: u32)
        requires
            fits_width(word, old(self).spec_width().spec_bits()),
        ensures
            final(self)@ == word,
            final(self).spec_width() == old(self).spec_width(),
    {
        self.word = word;
    }

    /// Read-modify-write of a plain field (element 0 of a field array):
    /// the field takes `value` cut to its width, the other bits stay.
    pub fn set_field(&mut self, f: FieldLayout, value: u32)
        requires
            old(self).wf(),
            f.wf(old(self).spec_width().spec_bits()),
        ensures
            final(self)@ == insert(old(self)@, f.low_bit, f.width, value),
            final(self).spec_width() == old(self).spec_width(),
            final(self).wf(),
    {
        let bits = self.width.bits();
        proof {
            f.lemma_element_in_word(bits, 0);
            lemma_insert_extract(self.word, f.low_bit, f.width, value, bits);
        }
        let word = self.word;
        self.word = insert_field(word, f.low_bit, f.width, value);
    }

    /// Read-modify-write of element `index` of a field array;
    /// `IndexError`, with the register untouched, when the index is at or
    /// beyond the element count.
    pub fn set_field_at(&mut self, f: FieldLayout, index: u32, value: u32) -> (r: Result<
        (),
        IndexError,
    >)
        requires
            old(self).wf(),
            f.wf(old(self).spec_width().spec_bits()),
        ensures
            index < f.count ==> r is Ok && final(self)@ == insert(
                old(self)@,
                f.shift_of(index),
                f.width,
                value,
            ),
            index >= f.count ==> r == Err::<(), IndexError>(
                IndexError { index: index as usize, count: f.count as usize },
            ) && final(self)@ == old(self)@,
            final(self).spec_width() == old(self).spec_width(),
            final(self).wf(),
    {
        let bits = self.width.bits();
        match f.element_shift(index) {
            Ok(s) => {
                proof {
                    f.lemma_element_in_word(bits, index);
                    lemma_insert_extract(self.word, s, f.width, value, bits);
                }
                let word = self.word;
                self.word = insert_field(word, s, f.width, value);
                Ok(())
            },
            Err(e) => Err(e),
        }
    }
}

/// A raw field value that matches no declared variant of an enumerated field.
#[derive(Clone, Copy, Debug, PartialEq, Eq, Structural)]
pub struct DecodeError {
    pub code: u32,
}

/// `raw` decodes to variant `i`: the first variant whose code is `raw`.
pub open spec fn decodes_to(codes: Seq<u32>, raw: u32, i: int) -> bool {
    &&& 0 <= i < codes.len()
    &&& codes[i] == raw
    &&& forall|j: int| 0 <= j < i ==> codes[j] != raw
}

/// The codes of an enumerated field's variants are pairwise distinct.
pub open spec fn distinct_codes(codes: Seq<u32>) -> bool {
    forall|i: int, j: int| 0 <= i < j < codes.len() ==> codes[i] != codes[j]
}

/// Decodes a raw field value to the position of its variant among
/// `codes`; a value that no variant has is a `DecodeError`, never a default.
pub fn decode(codes: &[u32], raw: u32) -> (r: Result<usize, DecodeError>)
    ensures
        r matches Ok(i) ==> decodes_to(codes@, raw, i as int),
        r is Err <==> !codes@.contains(raw),
        r matches Err(e) ==> e.code == raw,
{
    let mut i: usize = 0;
    while i < codes.len()
        invariant
            0 <= i <= codes@.len(),
            forall|j: int| 0 <= j < i ==> codes@[j] != raw,
        decreases codes@.len() - i,
    {
        if codes[i] == raw {
            return Ok(i);
        }
        i = i + 1;
    }
    Err(DecodeError { code: raw })
}

/// Encodes the variant at position `i` as its raw code.
pub fn encode(codes: &[u32], i: usize) -> (r: u32)
    requires
        i < codes@.len(),
    ensures
        r == codes@[i as int],
{
    codes[i]
}

/// With distinct codes, the code of every variant decodes to that variant
/// and to no other; a code that no variant has decodes to none.
pub proof fn lemma_enum_round_trip(codes: Seq<u32>, i: int, raw: u32)
    requires
        distinct_codes(codes),
        0 <= i < codes.len(),
    ensures
        decodes_to(codes, codes[i], i),
        forall|k: int| decodes_to(codes, codes[i], k) ==> k == i,
        !codes.contains(raw) ==> forall|k: int| !decodes_to(codes, raw, k),
{
}

} // verus!
