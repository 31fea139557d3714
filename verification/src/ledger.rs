//! A queue that knows what its items are charged together.

use std::collections::VecDeque;

use vstd::prelude::*;

verus! {

/// What the items of a queue are charged together.
pub open spec fn total_charge<T>(queue: Seq<(T, nat)>) -> nat
    decreases queue.len(),
{
    if queue.len() == 0 {
        0
    } else {
        total_charge(queue.drop_last()) + queue.last().1
    }
}

/// Adding an item adds its charge.
pub proof fn lemma_total_push<T>(queue: Seq<(T, nat)>, item: T, charge: nat)
    ensures
        total_charge(queue.push((item, charge))) == total_charge(queue) + charge,
{
    assert(queue.push((item, charge)).drop_last() =~= queue);
}

/// Taking the first item out gives back exactly its charge.
pub proof fn lemma_total_front<T>(queue: Seq<(T, nat)>)
    requires
        queue.len() > 0,
    ensures
        total_charge(queue) == queue[0].1 + total_charge(queue.drop_first()),
    decreases queue.len(),
{
    if queue.len() == 1 {
        assert(queue.drop_last() =~= Seq::empty());
        assert(queue.drop_first() =~= Seq::empty());
    } else {
        lemma_total_front(queue.drop_last());
        assert(queue.drop_last().drop_first() =~= queue.drop_first().drop_last());
        assert(queue.drop_first().last() == queue.last());
    }
}

/// Items in the order in which they came, each with its charge.
pub struct Ledger<T: View> {
    items: VecDeque<(T, usize)>,
    bytes: usize,
}

spec fn charged<T: View>(items: Seq<(T, usize)>) -> Seq<(T::V, nat)> {
    Seq::new(items.len(), |i: int| (items[i].0@, items[i].1 as nat))
}

impl<T: View> View for Ledger<T> {
    type V = Seq<(T::V, nat)>;

    closed spec fn view(&self) -> Seq<(T::V, nat)> {
        charged(self.items@)
    }
}

impl<T: View> Ledger<T> {
    #[verifier::type_invariant]
    spec fn inv(self) -> bool {
        self.bytes == total_charge(self@)
    }

    /// A queue without items.
    pub fn new() -> (ledger: Ledger<T>)
        ensures
            ledger@ == Seq::<(T::V, nat)>::empty(),
    {
        let items: VecDeque<(T, usize)> = VecDeque::new();
        assert(charged(items@) =~= Seq::empty());
        Ledger { items, bytes: 0 }
    }

    /// How many items there are.
    pub fn len(&self) -> (len: usize)
        ensures
            len == self@.len(),
    {
        self.items.len()
    }

    /// What the items are charged together.
    pub fn bytes(&self) -> (bytes: usize)
        ensures
            bytes == total_charge(self@),
    {
        proof {
            use_type_invariant(self);
        }
        self.bytes
    }

    /// The item at a position.
    pub fn item(&self, index: usize) -> (item: &T)
        requires
            index < self@.len(),
        ensures
            item@ == self@[index as int].0,
    {
        &self.items[index].0
    }

    /// Adds an item last.
    pub fn push(&mut self, item: T, charge: usize)
        requires
            total_charge(old(self)@) + charge <= usize::MAX,
        ensures
            final(self)@ == old(self)@.push((item@, charge as nat)),
    {
        proof {
            use_type_invariant(&*self);
        }
        let mut taken: Ledger<T> = Ledger::new();
        core::mem::swap(self, &mut taken);
        let Ledger { mut items, bytes } = taken;
        let ghost before = charged(items@);
        items.push_back((item, charge));
        proof {
            assert(charged(items@) =~= before.push((item@, charge as nat)));
            lemma_total_push(before, item@, charge as nat);
        }
        *self = Ledger { items, bytes: bytes + charge };
    }

    /// Takes the first item out, with its charge.
    pub fn pop(&mut self) -> (popped: Option<(T, usize)>)
        ensures
            match popped {
                Some((item, charge)) => {
                    &&& old(self)@.len() > 0
                    &&& old(self)@[0] == (item@, charge as nat)
                    &&& final(self)@ == old(self)@.drop_first()
                },
                None => old(self)@.len() == 0 && final(self)@ == old(self)@,
            },
    {
        proof {
            use_type_invariant(&*self);
        }
        let mut taken: Ledger<T> = Ledger::new();
        core::mem::swap(self, &mut taken);
        let Ledger { mut items, bytes } = taken;
        let ghost before = charged(items@);
        let front = items.pop_front();
        match front {
            Some((item, charge)) => {
                proof {
                    lemma_total_front(before);
                    assert(charged(items@) =~= before.drop_first());
                }
                *self = Ledger { items, bytes: bytes - charge };
                Some((item, charge))
            },
            None => {
                assert(charged(items@) =~= before);
                *self = Ledger { items, bytes };
                None
            },
        }
    }
}

} // verus!
