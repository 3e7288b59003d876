use vstd::prelude::*;

verus! {

/// A handle on one node of a [`CancellationTree`].
#[derive(Clone, Copy, PartialEq, Eq, Structural)]
pub struct CancellationToken {
    pub index: usize,
}

/// An arena of cancellation nodes. Each node may have a parent, always at a
/// smaller index; a node counts as cancelled when it or one of its ancestors
/// was cancelled.
pub struct CancellationTree {
    parents: Vec<Option<usize>>,
    flags: Vec<bool>,
}

impl CancellationTree {
    /// Parents precede their children, and every node has a flag.
    pub closed spec fn wf(&self) -> bool {
        &&& self.parents@.len() == self.flags@.len()
        &&& forall|i: int|
            0 <= i < self.parents@.len() && (#[trigger] self.parents@[i]) is Some ==> (
            self.parents@[i].unwrap() as int) < i
    }

    /// Number of nodes.
    pub closed spec fn len(&self) -> nat {
        self.parents@.len()
    }

    pub open spec fn contains(&self, t: CancellationToken) -> bool {
        (t.index as nat) < self.len()
    }

    /// Node `i` or one of its ancestors was cancelled.
    pub closed spec fn cancelled_at(&self, i: int) -> bool
        decreases i,
    {
        if 0 <= i < self.flags@.len() && i < self.parents@.len() {
            self.flags@[i] || match self.parents@[i] {
                Some(p) => (p as int) < i && self.cancelled_at(p as int),
                None => false,
            }
        } else {
            false
        }
    }

    /// Node `i` is node `a` or lies below it.
    pub closed spec fn below(&self, i: int, a: int) -> bool
        decreases i,
    {
        if 0 <= i < self.parents@.len() {
            i == a || match self.parents@[i] {
                Some(p) => (p as int) < i && self.below(p as int, a),
                None => false,
            }
        } else {
            false
        }
    }

    pub open spec fn cancelled(&self, t: CancellationToken) -> bool {
        self.cancelled_at(t.index as int)
    }

    /// `c` was derived, directly or transitively, from `a` (or is `a`).
    pub open spec fn derived_from(&self, c: CancellationToken, a: CancellationToken) -> bool {
        self.below(c.index as int, a.index as int)
    }

    proof fn lemma_below_le(&self, i: int, a: int)
        requires
            self.wf(),
            self.below(i, a),
        ensures
            a <= i,
        decreases i,
    {
        if i != a {
            let p = self.parents@[i].unwrap() as int;
            self.lemma_below_le(p, a);
        }
    }

    /// Appending a node changes nothing about the nodes already there.
    proof fn lemma_push_keeps(old_t: &Self, new_t: &Self, i: int, a: int)
        requires
            old_t.wf(),
            new_t.parents@.len() == old_t.parents@.len() + 1,
            new_t.flags@.len() == old_t.flags@.len() + 1,
            new_t.parents@.subrange(0, old_t.parents@.len() as int) == old_t.parents@,
            new_t.flags@.subrange(0, old_t.flags@.len() as int) == old_t.flags@,
            0 <= i < old_t.len(),
        ensures
            new_t.cancelled_at(i) == old_t.cancelled_at(i),
            new_t.below(i, a) == old_t.below(i, a),
        decreases i,
    {
        assert(new_t.parents@[i] == new_t.parents@.subrange(0, old_t.parents@.len() as int)[i]);
        assert(new_t.flags@[i] == new_t.flags@.subrange(0, old_t.flags@.len() as int)[i]);
        if let Some(p) = old_t.parents@[i] {
            Self::lemma_push_keeps(old_t, new_t, p as int, a);
        }
    }

    /// Raising the flag of `t` cancels exactly the nodes below `t`.
    proof fn lemma_flag_spreads(old_t: &Self, new_t: &Self, t: int, i: int)
        requires
            old_t.wf(),
            0 <= t < old_t.len(),
            new_t.parents@ == old_t.parents@,
            new_t.flags@ == old_t.flags@.update(t, true),
            0 <= i < old_t.len(),
        ensures
            new_t.cancelled_at(i) == (old_t.cancelled_at(i) || old_t.below(i, t)),
        decreases i,
    {
        if let Some(p) = old_t.parents@[i] {
            Self::lemma_flag_spreads(old_t, new_t, t, p as int);
        }
    }

    /// An empty tree.
    pub fn new() -> (r: Self)
        ensures
            r.wf(),
            r.len() == 0,
    {
        CancellationTree { parents: Vec::new(), flags: Vec::new() }
    }

    fn push(&mut self, parent: Option<usize>) -> (r: CancellationToken)
        requires
            old(self).wf(),
            old(self).len() < usize::MAX,
            parent matches Some(p) ==> (p as nat) < old(self).len(),
        ensures
            final(self).wf(),
            final(self).len() == old(self).len() + 1,
            r.index == old(self).len(),
            !final(self).cancelled(r) || parent is Some,
            parent matches Some(p) ==> final(self).parents@[r.index as int] == Some(p),
            parent is None ==> final(self).parents@[r.index as int] is None,
            !final(self).flags@[r.index as int],
            forall|i: int|
                0 <= i < old(self).len() ==> #[trigger] final(self).cancelled_at(i)
                    == old(self).cancelled_at(i),
            forall|i: int, a: int|
                0 <= i < old(self).len() ==> #[trigger] final(self).below(i, a) == old(
                    self).below(i, a),
    {
        let ghost old_t = *self;
        let n = self.parents.len();
        self.parents.push(parent);
        self.flags.push(false);
        assert(self.parents@.subrange(0, old_t.parents@.len() as int) == old_t.parents@);
        assert(self.flags@.subrange(0, old_t.flags@.len() as int) == old_t.flags@);
        assert forall|i: int| 0 <= i < old_t.len() implies #[trigger] self.cancelled_at(i)
            == old_t.cancelled_at(i) by {
            Self::lemma_push_keeps(&old_t, self, i, 0);
        }
        assert forall|i: int, a: int| 0 <= i < old_t.len() implies #[trigger] self.below(i, a)
            == old_t.below(i, a) by {
            Self::lemma_push_keeps(&old_t, self, i, a);
        }
        CancellationToken { index: n }
    }

    /// A new root token, not cancelled.
    pub fn root(&mut self) -> (r: CancellationToken)
        requires
            old(self).wf(),
            old(self).len() < usize::MAX,
        ensures
            final(self).wf(),
            final(self).len() == old(self).len() + 1,
            final(self).contains(r),
            !old(self).contains(r),
            !final(self).cancelled(r),
            forall|a: CancellationToken|
                #![trigger final(self).derived_from(r, a)]
                final(self).derived_from(r, a) == (a.index == r.index),
            forall|t: CancellationToken|
                #![trigger final(self).cancelled(t)]
                old(self).contains(t) ==> final(self).cancelled(t) == old(self).cancelled(t),
            forall|c: CancellationToken, a: CancellationToken|
                #![trigger final(self).derived_from(c, a)]
                old(self).contains(c) ==> final(self).derived_from(c, a) == old(
                    self).derived_from(c, a),
    {
        let r = self.push(None);
        let ghost i = r.index as int;
        assert(!self.cancelled_at(i));
        assert forall|a: CancellationToken| #[trigger] self.derived_from(r, a) == (a.index
            == r.index) by {
            assert(self.below(i, a.index as int) == (i == a.index as int));
        }
        assert forall|t: CancellationToken| old(self).contains(t) implies #[trigger] self.cancelled(t)
            == old(self).cancelled(t) by {
            assert(self.cancelled_at(t.index as int) == old(self).cancelled_at(t.index as int));
        }
        assert forall|c: CancellationToken, a: CancellationToken| old(self).contains(c) implies
            #[trigger] self.derived_from(c, a) == old(self).derived_from(c, a) by {
            assert(self.below(c.index as int, a.index as int) == old(self).below(
                c.index as int, a.index as int));
        }
        r
    }

    /// A token derived from `parent`: cancelled now exactly when `parent` is,
    /// and cancelled by every later cancellation of `parent`.
    pub fn child(&mut self, parent: CancellationToken) -> (r: CancellationToken)
        requires
            old(self).wf(),
            old(self).contains(parent),
            old(self).len() < usize::MAX,
        ensures
            final(self).wf(),
            final(self).len() == old(self).len() + 1,
            final(self).contains(r),
            !old(self).contains(r),
            final(self).cancelled(r) == old(self).cancelled(parent),
            final(self).derived_from(r, parent),
            forall|a: CancellationToken|
                #![trigger final(self).derived_from(r, a)]
                final(self).derived_from(r, a) == (a.index == r.index || old(self).derived_from(
                    parent,
                    a,
                )),
            forall|t: CancellationToken|
                #![trigger final(self).cancelled(t)]
                old(self).contains(t) ==> final(self).cancelled(t) == old(self).cancelled(t),
            forall|c: CancellationToken, a: CancellationToken|
                #![trigger final(self).derived_from(c, a)]
                old(self).contains(c) ==> final(self).derived_from(c, a) == old(
                    self).derived_from(c, a),
    {
        let r = self.push(Some(parent.index));
        let ghost i = r.index as int;
        let ghost p = parent.index as int;
        assert(self.cancelled_at(p) == old(self).cancelled_at(p));
        assert(self.below(p, p));
        assert(self.below(i, p));
        assert forall|a: CancellationToken| #[trigger] self.derived_from(r, a) == (a.index
            == r.index || old(self).derived_from(parent, a)) by {
            assert(self.below(p, a.index as int) == old(self).below(p, a.index as int));
        }
        assert forall|t: CancellationToken| old(self).contains(t) implies #[trigger] self.cancelled(t)
            == old(self).cancelled(t) by {
            assert(self.cancelled_at(t.index as int) == old(self).cancelled_at(t.index as int));
        }
        assert forall|c: CancellationToken, a: CancellationToken| old(self).contains(c) implies
            #[trigger] self.derived_from(c, a) == old(self).derived_from(c, a) by {
            assert(self.below(c.index as int, a.index as int) == old(self).below(
                c.index as int, a.index as int));
        }
        r
    }

    /// Cancels `t` and, through it, every token derived from it. Cancelling
    /// twice changes nothing.
    pub fn cancel(&mut self, t: CancellationToken)
        requires
            old(self).wf(),
            old(self).contains(t),
        ensures
            final(self).wf(),
            final(self).len() == old(self).len(),
            final(self).cancelled(t),
            forall|u: CancellationToken|
                #![trigger final(self).cancelled(u)]
                final(self).contains(u) ==> final(self).cancelled(u) == (old(self).cancelled(u)
                    || old(self).derived_from(u, t)),
            forall|c: CancellationToken, a: CancellationToken|
                #![trigger final(self).derived_from(c, a)]
                final(self).derived_from(c, a) == old(self).derived_from(c, a),
    {
        let ghost old_t = *self;
        self.flags.set(t.index, true);
        assert(old_t.below(t.index as int, t.index as int));
        assert forall|u: CancellationToken| #[trigger] self.contains(u) implies self.cancelled(u)
            == (old_t.cancelled(u) || old_t.derived_from(u, t)) by {
            Self::lemma_flag_spreads(&old_t, self, t.index as int, u.index as int);
        }
        assert forall|c: CancellationToken, a: CancellationToken|
            #[trigger] self.derived_from(c, a) == old_t.derived_from(c, a) by {
            assert(self.parents@ == old_t.parents@);
            Self::lemma_below_same(&old_t, self, c.index as int, a.index as int);
        }
    }

    proof fn lemma_below_same(x: &Self, y: &Self, i: int, a: int)
        requires
            x.parents@ == y.parents@,
        ensures
            x.below(i, a) == y.below(i, a),
        decreases i,
    {
        if 0 <= i < x.parents@.len() {
            if let Some(p) = x.parents@[i] {
                if (p as int) < i {
                    Self::lemma_below_same(x, y, p as int, a);
                }
            }
        }
    }

    /// Whether `t` or one of the tokens it was derived from was cancelled.
    pub fn is_cancelled(&self, t: CancellationToken) -> (r: bool)
        requires
            self.wf(),
            self.contains(t),
        ensures
            r == self.cancelled(t),
    {
        let mut i: usize = t.index;
        loop
            invariant
                self.wf(),
                (i as nat) < self.len(),
                self.cancelled(t) == self.cancelled_at(i as int),
            decreases i,
        {
            if self.flags[i] {
                return true;
            }
            match self.parents[i] {
                Some(p) => {
                    i = p;
                },
                None => {
                    return false;
                },
            }
        }
    }

    /// Cancelling a token cancels every token derived from it.
    pub proof fn lemma_cancel_reaches_derived(
        before: &Self,
        after: &Self,
        t: CancellationToken,
        c: CancellationToken,
    )
        requires
            before.wf(),
            before.contains(t),
            before.contains(c),
            before.derived_from(c, t),
            after.wf(),
            after.len() == before.len(),
            forall|u: CancellationToken|
                #![trigger after.cancelled(u)]
                after.contains(u) ==> after.cancelled(u) == (before.cancelled(u)
                    || before.derived_from(u, t)),
        ensures
            after.cancelled(c),
    {
    }

    /// Cancelling a token derived from another leaves that other token as it
    /// was.
    pub proof fn lemma_cancel_spares_ancestor(
        before: &Self,
        after: &Self,
        c: CancellationToken,
        a: CancellationToken,
    )
        requires
            before.wf(),
            before.contains(c),
            before.contains(a),
            before.derived_from(c, a),
            c != a,
            after.len() == before.len(),
            forall|u: CancellationToken|
                #![trigger after.cancelled(u)]
                after.contains(u) ==> after.cancelled(u) == (before.cancelled(u)
                    || before.derived_from(u, c)),
        ensures
            after.cancelled(a) == before.cancelled(a),
    {
        before.lemma_below_le(c.index as int, a.index as int);
        if before.derived_from(a, c) {
            before.lemma_below_le(a.index as int, c.index as int);
        }
    }
}

} // verus!
