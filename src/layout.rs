//! Naming and layout policy: storage types per width, field masks and
//! shifts, and the address arithmetic of repeated registers.
use vstd::arithmetic::power2::{lemma_pow2_pos, pow2};
use vstd::bits::{lemma_u64_pow2_no_overflow, lemma_u64_shl_is_mul};
use vstd::prelude::*;

verus! {

/// The width of a register word.
#[derive(Clone, Copy, Debug, PartialEq, Eq, Structural)]
pub enum RegWidth {
    Reg8,
    Reg16,
    Reg32,
}

impl RegWidth {
    pub open spec fn spec_bits(self) -> u32 {
        match self {
            RegWidth::Reg8 => 8,
            RegWidth::Reg16 => 16,
            RegWidth::Reg32 => 32,
        }
    }

    /// Number of bits in a word of this width.
    pub fn bits(&self) -> (r: u32)
        ensures
            r == self.spec_bits(),
    {
        match self {
            RegWidth::Reg8 => 8,
            RegWidth::Reg16 => 16,
            RegWidth::Reg32 => 32,
        }
    }

    /// The supported width of `bits` bits, if there is one.
    pub open spec fn from_bits_spec(bits: u32) -> Option<RegWidth> {
        if bits == 8 {
            Some(RegWidth::Reg8)
        } else if bits == 16 {
            Some(RegWidth::Reg16)
        } else if bits == 32 {
            Some(RegWidth::Reg32)
        } else {
            None
        }
    }

    /// The width with the given number of bits, if it is a supported one.
    pub fn from_bits(bits: u64) -> (r: Option<RegWidth>)
        ensures
            r is Some <==> (bits == 8 || bits == 16 || bits == 32),
            r matches Some(w) ==> w.spec_bits() == bits,
            bits <= u32::MAX ==> r == Self::from_bits_spec(bits as u32),
    {
        if bits == 8 {
            Some(RegWidth::Reg8)
        } else if bits == 16 {
            Some(RegWidth::Reg16)
        } else if bits == 32 {
            Some(RegWidth::Reg32)
        } else {
            None
        }
    }
}

/// Name of the unsigned primitive type that stores a word of `width`.
pub open spec fn primitive_name(width: RegWidth) -> Seq<char> {
    match width {
        RegWidth::Reg8 => seq!['u', '8'],
        RegWidth::Reg16 => seq!['u', '1', '6'],
        RegWidth::Reg32 => seq!['u', '3', '2'],
    }
}

/// The primitive storage type chosen from a declared width.
pub fn primitive_type_name(width: RegWidth) -> (r: &'static str)
    ensures
        r@ == primitive_name(width),
{
    match width {
        RegWidth::Reg8 => {
            proof {
                reveal_strlit("u8");
            }
            "u8"
        },
        RegWidth::Reg16 => {
            proof {
                reveal_strlit("u16");
            }
            "u16"
        },
        RegWidth::Reg32 => {
            proof {
                reveal_strlit("u32");
            }
            "u32"
        },
    }
}

/// The mask of a field `width` bits wide, as a bit pattern.
pub open spec fn low_mask(width: u32) -> u32 {
    (((1u64 << (width as u64)) - 1u64) as u64) as u32
}

/// `low_mask(width)` is `2^width - 1`.
pub proof fn lemma_low_mask_value(width: u32)
    requires
        1 <= width <= 32,
    ensures
        low_mask(width) as nat == pow2(width as nat) - 1,
{
    let w = width as u64;
    lemma_u64_pow2_no_overflow(w as nat);
    lemma_u64_shl_is_mul(1u64, w);
    lemma_pow2_pos(w as nat);
    vstd::bits::lemma_u64_pow2_no_overflow(32);
    vstd::arithmetic::power2::lemma_pow2_strictly_increases(w as nat, 33);
    vstd::arithmetic::power2::lemma2_to64();
}

/// The mask of a field `width` bits wide: `2^width - 1`.
pub fn mask(width: u32) -> (r: u32)
    requires
        1 <= width <= 32,
    ensures
        r as nat == pow2(width as nat) - 1,
        r == low_mask(width),
{
    proof {
        lemma_low_mask_value(width);
        let w = width as u64;
        assert(1 <= w <= 32 ==> 1 <= (1u64 << w) && (1u64 << w) - 1 <= 0xffff_ffffu64) by (bit_vector);
    }
    (((1u64 << (width as u64)) - 1u64) as u32)
}

/// Shift of a plain field (`index` is `None`) or of element `index` of a
/// field array.
pub open spec fn field_shift(low_bit: int, width: int, index: Option<u32>) -> int {
    match index {
        Some(i) => low_bit + i * width,
        None => low_bit,
    }
}

/// The shift of a field: `low_bit`, or `low_bit + index * width` for an
/// element of a field array.
pub fn shift(low_bit: u32, width: u32, index: Option<u32>) -> (r: u32)
    requires
        field_shift(low_bit as int, width as int, index) <= u32::MAX,
    ensures
        r == field_shift(low_bit as int, width as int, index),
{
    match index {
        Some(i) => {
            proof {
                assert(0 <= i * width) by (nonlinear_arith);
            }
            low_bit + i * width
        },
        None => low_bit,
    }
}

/// The mask of a field `width` bits wide is `2^width - 1`, and the shift
/// of element `index` of a field array is `low_bit + index * width`, which
/// for element 0 is the field's own low bit.
pub proof fn lemma_mask_and_shift(low_bit: u32, width: u32, index: u32)
    requires
        1 <= width <= 32,
    ensures
        low_mask(width) as nat == pow2(width as nat) - 1,
        field_shift(low_bit as int, width as int, Some(index)) == low_bit + index * width,
        field_shift(low_bit as int, width as int, Some(0)) == low_bit,
        field_shift(low_bit as int, width as int, None) == low_bit,
{
    lemma_low_mask_value(width);
}

/// Index out of the declared element count of an array or a group.
#[derive(Clone, Copy, Debug, PartialEq, Eq, Structural)]
pub struct IndexError {
    pub index: usize,
    pub count: usize,
}

/// Address of element `index` of a repeated unit placed at `offset` from
/// `base`, whose elements are `stride` bytes apart.
pub open spec fn element_address(base: int, offset: int, stride: int, index: int) -> int {
    base + offset + index * stride
}

/// The address of element `index` of a unit repeated `count` times;
/// an index at or beyond `count` is rejected.
pub fn address(base: usize, offset: usize, stride: usize, index: usize, count: usize) -> (r: Result<
    usize,
    IndexError,
>)
    requires
        base + offset + count * stride <= usize::MAX,
    ensures
        index < count ==> r == Ok::<usize, IndexError>(
            element_address(base as int, offset as int, stride as int, index as int) as usize,
        ),
        index >= count ==> r == Err::<usize, IndexError>(IndexError { index, count }),
{
    if index >= count {
        return Err(IndexError { index, count });
    }
    proof {
        assert(index * stride <= count * stride) by (nonlinear_arith)
            requires
                index < count,
        ;
        assert(0 <= index * stride) by (nonlinear_arith);
    }
    Ok(base + offset + index * stride)
}

/// The components of a path joined by `_`.
pub open spec fn join(path: Seq<Seq<u8>>) -> Seq<u8>
    decreases path.len(),
{
    if path.len() == 0 {
        seq![]
    } else if path.len() == 1 {
        path[0]
    } else {
        join(path.drop_last()) + seq![95u8] + path.last()
    }
}

/// The views of the components of a path.
pub open spec fn path_view(path: Seq<Vec<u8>>) -> Seq<Seq<u8>> {
    path.map_values(|c: Vec<u8>| c@)
}

/// The name of the structure of a register: its path joined by `_`.
pub fn path_ident(path: &Vec<Vec<u8>>) -> (r: Vec<u8>)
    ensures
        r@ == join(path_view(path@)),
{
    let mut r: Vec<u8> = Vec::new();
    let mut i: usize = 0;
    while i < path.len()
        invariant
            0 <= i <= path@.len(),
            r@ == join(path_view(path@.subrange(0, i as int))),
        decreases path@.len() - i,
    {
        let ghost before = r@;
        if i > 0 {
            r.push(95u8);
        }
        let mut j: usize = 0;
        let ghost mid = r@;
        while j < path[i].len()
            invariant
                0 <= i < path@.len(),
                0 <= j <= path@[i as int]@.len(),
                r@ == mid + path@[i as int]@.subrange(0, j as int),
            decreases path@[i as int]@.len() - j,
        {
            r.push(path[i][j]);
            proof {
                assert(r@ =~= mid + path@[i as int]@.subrange(0, j as int + 1));
            }
            j = j + 1;
        }
        proof {
            let s = path_view(path@.subrange(0, i as int + 1));
            assert(path@[i as int]@.subrange(0, path@[i as int]@.len() as int) =~= path@[i as int]@);
            assert(s.drop_last() =~= path_view(path@.subrange(0, i as int)));
            assert(s.last() == path@[i as int]@);
            if i == 0 {
                assert(s.len() == 1);
                assert(r@ =~= s[0]);
            } else {
                assert(r@ =~= before + seq![95u8] + path@[i as int]@);
            }
        }
        i = i + 1;
    }
    proof {
        assert(path@.subrange(0, path@.len() as int) =~= path@);
    }
    r
}

/// `path` with one more component.
fn extended(path: &Vec<Vec<u8>>, last: Vec<u8>) -> (r: Vec<Vec<u8>>)
    ensures
        path_view(r@) == path_view(path@).push(last@),
{
    let mut r: Vec<Vec<u8>> = Vec::new();
    let mut i: usize = 0;
    while i < path.len()
        invariant
            0 <= i <= path@.len(),
            r@.len() == i,
            forall|k: int| 0 <= k < i ==> (#[trigger] r@[k])@ == path@[k]@,
        decreases path@.len() - i,
    {
        let mut c: Vec<u8> = Vec::new();
        let mut j: usize = 0;
        while j < path[i].len()
            invariant
                0 <= i < path@.len(),
                0 <= j <= path@[i as int]@.len(),
                c@ == path@[i as int]@.subrange(0, j as int),
            decreases path@[i as int]@.len() - j,
        {
            c.push(path[i][j]);
            proof {
                assert(c@ =~= path@[i as int]@.subrange(0, j as int + 1));
            }
            j = j + 1;
        }
        proof {
            assert(c@ =~= path@[i as int]@);
        }
        r.push(c);
        i = i + 1;
    }
    r.push(last);
    proof {
        assert(path_view(r@) =~= path_view(path@).push(last@));
    }
    r
}

/// Name of the mutator binding of a register: its path and `Update`,
/// joined by `_`.
pub fn setter_name(path: &Vec<Vec<u8>>) -> (r: Vec<u8>)
    ensures
        r@ == join(path_view(path@).push(seq![85u8, 112u8, 100u8, 97u8, 116u8, 101u8])),
{
    let mut last: Vec<u8> = Vec::new();
    last.push(85u8);
    last.push(112u8);
    last.push(100u8);
    last.push(97u8);
    last.push(116u8);
    last.push(101u8);
    proof {
        assert(last@ =~= seq![85u8, 112u8, 100u8, 97u8, 116u8, 101u8]);
    }
    path_ident(&extended(path, last))
}

/// Name of the snapshot binding of a register: its path and `Get`,
/// joined by `_`.
pub fn getter_name(path: &Vec<Vec<u8>>) -> (r: Vec<u8>)
    ensures
        r@ == join(path_view(path@).push(seq![71u8, 101u8, 116u8])),
{
    let mut last: Vec<u8> = Vec::new();
    last.push(71u8);
    last.push(101u8);
    last.push(116u8);
    proof {
        assert(last@ =~= seq![71u8, 101u8, 116u8]);
    }
    path_ident(&extended(path, last))
}

} // verus!
