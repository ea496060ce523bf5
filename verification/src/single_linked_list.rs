//! A reference-chained list for accumulating values during a traversal
//! without owning them: each `snoc` borrows the previous node.

use vstd::prelude::*;

verus! {

#[derive(Debug, Clone, Copy)]
pub enum SingleLinkedList<'a, A> {
    End,
    Value(A, &'a SingleLinkedList<'a, A>),
}

impl<'a, A> SingleLinkedList<'a, A> {
    /// The values in insertion order: the head of a node chain is the most
    /// recently appended value.
    pub open spec fn seq_of(self) -> Seq<A>
        decreases self,
    {
        match self {
            SingleLinkedList::End => Seq::empty(),
            SingleLinkedList::Value(a, rest) => rest.seq_of().push(a),
        }
    }

    /// A new chain with `a` appended; the receiver stays usable.
    pub fn snoc(&'a self, a: A) -> (r: SingleLinkedList<'a, A>)
        ensures
            r.seq_of() == self.seq_of().push(a),
    {
        SingleLinkedList::Value(a, self)
    }

    /// The empty chain.
    pub fn new() -> (r: Self)
        ensures
            r.seq_of() == Seq::<A>::empty(),
    {
        Self::End
    }

    /// The values as a vector, in insertion order, each a clone of the
    /// stored one.
    pub fn to_vec(&self) -> (r: Vec<A>)
        where A: Clone,
        ensures
            r@.len() == self.seq_of().len(),
            forall|i: int|
                0 <= i < r@.len() ==> vstd::pervasive::cloned::<A>(self.seq_of()[i], #[trigger] r@[i]),
    {
        let mut at = self;
        let mut res: Vec<A> = Vec::new();
        proof {
            assert(self.seq_of().skip(self.seq_of().len() as int) =~= Seq::<A>::empty());
        }
        while !matches!(at, SingleLinkedList::End)
            invariant
                at.seq_of().len() <= self.seq_of().len(),
                at.seq_of() == self.seq_of().take(at.seq_of().len() as int),
                res@.len() == self.seq_of().len() - at.seq_of().len(),
                forall|i: int|
                    0 <= i < res@.len() ==> vstd::pervasive::cloned::<A>(
                        self.seq_of()[self.seq_of().len() - 1 - i],
                        #[trigger] res@[i],
                    ),
            decreases at.seq_of().len(),
        {
            match at {
                SingleLinkedList::Value(a, n) => {
                    res.push(a.clone());
                    proof {
                        let k = at.seq_of().len() as int;
                        assert(at.seq_of()[k - 1] == self.seq_of()[k - 1]);
                        assert(n.seq_of() =~= at.seq_of().take(k - 1));
                        assert(n.seq_of() =~= self.seq_of().take(k - 1));
                    }
                    at = n;
                }
                SingleLinkedList::End => {}
            }
        }
        // The values were collected newest first; move them out back to
        // front to restore insertion order.
        let ghost total = self.seq_of().len();
        let mut out: Vec<A> = Vec::new();
        while res.len() > 0
            invariant
                out@.len() + res@.len() == total,
                total == self.seq_of().len(),
                forall|j: int|
                    0 <= j < res@.len() ==> vstd::pervasive::cloned::<A>(
                        self.seq_of()[total - 1 - j],
                        #[trigger] res@[j],
                    ),
                forall|j: int|
                    0 <= j < out@.len() ==> vstd::pervasive::cloned::<A>(
                        self.seq_of()[j],
                        #[trigger] out@[j],
                    ),
            decreases res@.len(),
        {
            match res.pop() {
                Some(a) => {
                    out.push(a);
                }
                None => {}
            }
        }
        out
    }
}

} // verus!
