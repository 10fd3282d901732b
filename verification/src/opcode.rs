//! The opcode decoder: splits a 16-bit instruction word into its four
//! nibbles and the contiguous groupings the dispatcher reads its fields from.

use vstd::prelude::*;

verus! {

/// Names for the four nibbles of an instruction word (`A` is the most
/// significant) and for their contiguous groupings.
#[derive(Clone, Copy, Debug, PartialEq, Eq, Structural)]
pub enum Nibble {
    A,
    B,
    C,
    D,
    AB,
    BC,
    CD,
    ABC,
    BCD,
    ABCD,
}

/// The most significant nibble of `w`, as a value in `0..16`.
pub open spec fn nib_a(w: u16) -> u16 {
    (w & 0xF000) >> 12
}

/// The second nibble of `w`, as a value in `0..16`.
pub open spec fn nib_b(w: u16) -> u16 {
    (w & 0x0F00) >> 8
}

/// The third nibble of `w`, as a value in `0..16`.
pub open spec fn nib_c(w: u16) -> u16 {
    (w & 0x00F0) >> 4
}

/// The least significant nibble of `w`, as a value in `0..16`.
pub open spec fn nib_d(w: u16) -> u16 {
    w & 0x000F
}

/// The nibble `nib` of `w` in place: each single nibble is returned shifted
/// back to its own position inside the word, and a grouping is the bitwise
/// or of its members, so that `AB | CD == w` and the like recombine exactly.
pub open spec fn group_of(w: u16, nib: Nibble) -> u16 {
    match nib {
        Nibble::A => nib_a(w) << 12,
        Nibble::B => nib_b(w) << 8,
        Nibble::C => nib_c(w) << 4,
        Nibble::D => nib_d(w),
        Nibble::AB => (nib_a(w) << 12) | (nib_b(w) << 8),
        Nibble::BC => (nib_b(w) << 8) | (nib_c(w) << 4),
        Nibble::CD => (nib_c(w) << 4) | nib_d(w),
        Nibble::ABC => (nib_a(w) << 12) | (nib_b(w) << 8) | (nib_c(w) << 4),
        Nibble::BCD => (nib_b(w) << 8) | (nib_c(w) << 4) | nib_d(w),
        Nibble::ABCD => w,
    }
}

/// The nibble `nib` of `w` as a value in `0..16` (single nibbles only).
pub open spec fn nibble_of(w: u16, nib: Nibble) -> u16 {
    match nib {
        Nibble::A => nib_a(w),
        Nibble::B => nib_b(w),
        Nibble::C => nib_c(w),
        Nibble::D => nib_d(w),
        _ => 0,
    }
}

/// Every nibble of a word is below 16, and the two- and three-nibble
/// groupings fit in one and one-and-a-half bytes respectively.
pub proof fn lemma_nibble_bounds(w: u16)
    ensures
        nib_a(w) < 16,
        nib_b(w) < 16,
        nib_c(w) < 16,
        nib_d(w) < 16,
        group_of(w, Nibble::CD) < 256,
        group_of(w, Nibble::BCD) < 0x1000,
{
    assert((w & 0xF000) >> 12 < 16) by (bit_vector);
    assert((w & 0x0F00) >> 8 < 16) by (bit_vector);
    assert((w & 0x00F0) >> 4 < 16) by (bit_vector);
    assert(w & 0x000F < 16) by (bit_vector);
    assert((((w & 0x00F0) >> 4) << 4) | (w & 0x000F) < 256) by (bit_vector);
    assert((((w & 0x0F00) >> 8) << 8) | (((w & 0x00F0) >> 4) << 4) | (w & 0x000F) < 0x1000)
        by (bit_vector);
}

/// Decoding loses nothing: the nibbles of a word, shifted back into place,
/// recombine to the word itself, whichever way they are grouped.
pub proof fn lemma_decode_recombines(w: u16)
    ensures
        group_of(w, Nibble::ABCD) == w,
        (group_of(w, Nibble::AB) | group_of(w, Nibble::CD)) == w,
        (group_of(w, Nibble::A) | group_of(w, Nibble::BCD)) == w,
        (group_of(w, Nibble::ABC) | group_of(w, Nibble::D)) == w,
        (group_of(w, Nibble::A) | group_of(w, Nibble::B) | group_of(w, Nibble::C) | group_of(
            w,
            Nibble::D,
        )) == w,
{
    assert(((((w & 0xF000) >> 12) << 12) | (((w & 0x0F00) >> 8) << 8)) | ((((w & 0x00F0) >> 4)
        << 4) | (w & 0x000F)) == w) by (bit_vector);
    assert((((w & 0xF000) >> 12) << 12) | ((((w & 0x0F00) >> 8) << 8) | (((w & 0x00F0) >> 4) << 4)
        | (w & 0x000F)) == w) by (bit_vector);
    assert(((((w & 0xF000) >> 12) << 12) | (((w & 0x0F00) >> 8) << 8) | (((w & 0x00F0) >> 4) << 4))
        | (w & 0x000F) == w) by (bit_vector);
    assert((((w & 0xF000) >> 12) << 12) | (((w & 0x0F00) >> 8) << 8) | (((w & 0x00F0) >> 4) << 4)
        | (w & 0x000F) == w) by (bit_vector);
}

/// An immutable 16-bit instruction word together with its four nibbles.
///
/// This is the single source of truth for field extraction: the dispatcher
/// reads every operand through [`Opcode::index`] and [`Opcode::get`] and
/// never masks bits by hand.
pub struct Opcode {
    /// The four nibbles, most significant first.
    a: u16,
    b: u16,
    c: u16,
    d: u16,
    /// The opcode itself.
    opcode: u16,
}

impl View for Opcode {
    type V = u16;

    closed spec fn view(&self) -> u16 {
        self.opcode
    }
}

impl Opcode {
    /// The cached nibbles agree with the stored word.
    pub closed spec fn wf(&self) -> bool {
        &&& self.a == nib_a(self.opcode)
        &&& self.b == nib_b(self.opcode)
        &&& self.c == nib_c(self.opcode)
        &&& self.d == nib_d(self.opcode)
    }

    /// Decodes a word. Total: every 16-bit value is a syntactically valid
    /// opcode.
    pub fn new(opcode: u16) -> (r: Self)
        ensures
            r.wf(),
            r@ == opcode,
    {
        Opcode {
            a: (opcode & 0xF000) >> 12,
            b: (opcode & 0x0F00) >> 8,
            c: (opcode & 0x00F0) >> 4,
            d: opcode & 0x000F,
            opcode,
        }
    }

    /// One nibble of the word, as a value in `0..16`.
    pub fn index(&self, nib: Nibble) -> (r: u16)
        requires
            self.wf(),
            nib == Nibble::A || nib == Nibble::B || nib == Nibble::C || nib == Nibble::D,
        ensures
            r == nibble_of(self@, nib),
            r < 16,
    {
        proof {
            lemma_nibble_bounds(self@);
        }
        match nib {
            Nibble::A => self.a,
            Nibble::B => self.b,
            Nibble::C => self.c,
            Nibble::D => self.d,
            _ => 0,
        }
    }

    /// One of the possible nibble groupings of the word, in place.
    pub fn get(&self, nib: Nibble) -> (r: u16)
        requires
            self.wf(),
        ensures
            r == group_of(self@, nib),
    {
        match nib {
            Nibble::A => self.a << 12,
            Nibble::B => self.b << 8,
            Nibble::C => self.c << 4,
            Nibble::D => self.d,
            Nibble::AB => (self.a << 12) | (self.b << 8),
            Nibble::BC => (self.b << 8) | (self.c << 4),
            Nibble::CD => (self.c << 4) | self.d,
            Nibble::ABC => (self.a << 12) | (self.b << 8) | (self.c << 4),
            Nibble::BCD => (self.b << 8) | (self.c << 4) | self.d,
            Nibble::ABCD => self.opcode,
        }
    }
}

} // verus!
