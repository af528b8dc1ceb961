//! Which pieces a peer says it holds.

use vstd::prelude::*;

verus! {

/// One flag per piece: `true` where the peer has announced the piece.
#[derive(Debug)]
pub struct BitField {
    pub bits: Vec<bool>,
}

/// A change to a peer's availability: a whole new vector, or one more piece.
#[derive(Debug)]
pub enum BitFieldUpdate {
    BitField(BitField),
    Piece(usize),
}

impl View for BitField {
    type V = Seq<bool>;

    open spec fn view(&self) -> Seq<bool> {
        self.bits@
    }
}

/// Whether the flag at `index` is set; an index past the end counts as unset.
pub open spec fn has_bit(bits: Seq<bool>, index: int) -> bool {
    0 <= index < bits.len() && bits[index]
}

/// The availability that results from applying `update` to `bits`.
pub open spec fn apply_update(bits: Seq<bool>, update: BitFieldUpdate) -> Seq<bool> {
    match update {
        BitFieldUpdate::BitField(b) => b@,
        BitFieldUpdate::Piece(i) => if i < bits.len() {
            bits.update(i as int, true)
        } else {
            bits
        },
    }
}

impl BitField {
    /// An availability vector of `num_pieces` flags, none set.
    pub fn new(num_pieces: usize) -> (r: BitField)
        ensures
            r@.len() == num_pieces,
            forall|i: int| 0 <= i < num_pieces ==> !r@[i],
    {
        let mut bits: Vec<bool> = Vec::new();
        let mut i: usize = 0;
        while i < num_pieces
            invariant
                i <= num_pieces,
                bits@.len() == i,
                forall|j: int| 0 <= j < i ==> !bits@[j],
            decreases num_pieces - i,
        {
            bits.push(false);
            i += 1;
        }
        BitField { bits }
    }

    /// Wraps a vector of flags.
    pub fn from_bools(bits: Vec<bool>) -> (r: BitField)
        ensures
            r@ == bits@,
    {
        BitField { bits }
    }

    pub fn len(&self) -> (r: usize)
        ensures
            r == self@.len(),
    {
        self.bits.len()
    }

    pub fn get_bit(&self, index: usize) -> (r: bool)
        ensures
            r == has_bit(self@, index as int),
    {
        index < self.bits.len() && self.bits[index]
    }

    /// Sets the flag at `index`; an index past the end changes nothing.
    pub fn set_bit(&mut self, index: usize)
        ensures
            final(self)@ == apply_update(old(self)@, BitFieldUpdate::Piece(index)),
    {
        if index < self.bits.len() {
            self.bits[index] = true;
        }
    }

    /// Applies an availability update: a full vector replaces the flags, a
    /// single piece sets its flag.
    pub fn update(&mut self, update: BitFieldUpdate)
        ensures
            final(self)@ == apply_update(old(self)@, update),
    {
        match update {
            BitFieldUpdate::BitField(b) => {
                self.bits = b.bits;
            },
            BitFieldUpdate::Piece(i) => {
                self.set_bit(i);
            },
        }
    }

    /// A copy of the flags.
    pub fn duplicate(&self) -> (r: BitField)
        ensures
            r@ == self@,
    {
        let mut bits: Vec<bool> = Vec::new();
        let mut i: usize = 0;
        while i < self.bits.len()
            invariant
                i <= self.bits@.len(),
                bits@ == self.bits@.take(i as int),
            decreases self.bits@.len() - i,
        {
            bits.push(self.bits[i]);
            proof {
                assert(self.bits@.take(i + 1) == self.bits@.take(i as int).push(self.bits@[i as int]));
            }
            i += 1;
        }
        proof {
            assert(self.bits@.take(self.bits@.len() as int) == self.bits@);
        }
        BitField { bits }
    }
}

} // verus!
