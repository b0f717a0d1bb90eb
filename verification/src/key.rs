//! The immutable keyboard geometry: physical keys with their press cost,
//! hand, finger and symmetry partner.

use vstd::prelude::*;

verus! {

/// Index of a [`Key`] in the keyboard's key sequence.
pub type KeyIndex = u16;

/// The hand a key is pressed with.
#[derive(Debug, Clone, Copy, PartialEq, Eq, Structural)]
pub enum Hand {
    Left,
    Right,
}

impl Hand {
    /// The other hand.
    pub open spec fn other_spec(self) -> Hand {
        match self {
            Hand::Left => Hand::Right,
            Hand::Right => Hand::Left,
        }
    }

    /// The other hand.
    pub fn other(&self) -> (r: Hand)
        ensures
            r == self.other_spec(),
    {
        match self {
            Hand::Left => Hand::Right,
            Hand::Right => Hand::Left,
        }
    }
}

/// The finger a key is pressed with.
#[derive(Debug, Clone, Copy, PartialEq, Eq, Structural)]
pub enum Finger {
    Thumb,
    Index,
    Middle,
    Ring,
    Pinky,
}

/// One physical key of the keyboard.
#[derive(Debug, Clone, Copy, PartialEq, Eq, Structural)]
pub struct Key {
    /// Fixed-point effort of pressing this key.
    pub cost: u64,
    /// Hand pressing the key.
    pub hand: Hand,
    /// Finger pressing the key.
    pub finger: Finger,
    /// Index of the mirror key on the other half of the keyboard.
    pub symmetry_index: usize,
}

/// The immutable, ordered collection of physical keys.
#[derive(Debug, Clone)]
pub struct Keyboard {
    /// The keys, in canonical left-to-right, top-to-bottom order.
    pub keys: Vec<Key>,
}

impl Keyboard {
    pub fn new(keys: Vec<Key>) -> (r: Self)
        ensures
            r.keys@ == keys@,
    {
        Self { keys }
    }
}

} // verus!
