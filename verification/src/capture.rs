//! The frames that a mock transport captures instead of sending.

use vstd::prelude::*;

use crate::bounds::{OUTGOING_BYTES, OUTGOING_CAPACITY};
use crate::ledger::{lemma_total_push, total_charge, Ledger};
use crate::value::{trees, Tree, Value};

verus! {

/// Captured values, bounded in count and in bytes.
pub struct Capture {
    ledger: Ledger<Value>,
}

impl View for Capture {
    type V = Seq<(Tree, nat)>;

    closed spec fn view(&self) -> Seq<(Tree, nat)> {
        self.ledger@
    }
}

/// Whether a capture keeps both bounds.
pub open spec fn capture_within_bounds(capture: Seq<(Tree, nat)>) -> bool {
    capture.len() <= OUTGOING_CAPACITY && total_charge(capture) <= OUTGOING_BYTES
}

/// The captured trees.
pub open spec fn captured(capture: Seq<(Tree, nat)>) -> Seq<Tree> {
    Seq::new(capture.len(), |i: int| capture[i].0)
}

impl Capture {
    #[verifier::type_invariant]
    spec fn inv(self) -> bool {
        capture_within_bounds(self.ledger@)
    }

    /// An empty capture.
    pub fn new() -> (capture: Capture)
        ensures
            capture@ == Seq::<(Tree, nat)>::empty(),
    {
        Capture { ledger: Ledger::new() }
    }

    /// How many values are captured.
    pub fn len(&self) -> (len: usize)
        ensures
            len == self@.len(),
            capture_within_bounds(self@),
    {
        proof {
            use_type_invariant(self);
        }
        self.ledger.len()
    }

    /// What the captured values are charged together.
    pub fn bytes(&self) -> (bytes: usize)
        ensures
            bytes == total_charge(self@),
            capture_within_bounds(self@),
    {
        proof {
            use_type_invariant(self);
        }
        self.ledger.bytes()
    }

    /// Captures a value.
    pub fn push(&mut self, value: Value, charge: usize)
        requires
            old(self)@.len() < OUTGOING_CAPACITY,
            charge <= OUTGOING_BYTES - total_charge(old(self)@),
        ensures
            final(self)@ == old(self)@.push((value@, charge as nat)),
    {
        proof {
            use_type_invariant(&*self);
        }
        let mut taken = Capture::new();
        core::mem::swap(self, &mut taken);
        let Capture { mut ledger } = taken;
        proof {
            lemma_total_push(ledger@, value@, charge as nat);
        }
        ledger.push(value, charge);
        *self = Capture { ledger };
    }

    /// The captured values as an array.
    pub fn as_value(&self) -> (value: Value)
        ensures
            value@ == Tree::Arr(captured(self@)),
    {
        let mut values: Vec<Value> = Vec::new();
        let mut i: usize = 0;
        while i < self.ledger.len()
            invariant
                i <= self.ledger@.len(),
                values@.len() == i,
                forall|j: int| 0 <= j < i ==> (#[trigger] values@[j])@ == self.ledger@[j].0,
            decreases self.ledger@.len() - i,
        {
            values.push(self.ledger.item(i).clone());
            i = i + 1;
        }
        assert(trees(values@) =~= captured(self@));
        Value::array(values)
    }
}

} // verus!
