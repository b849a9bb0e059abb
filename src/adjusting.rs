//! The managed collection and the reconciliation that keeps it in step with
//! a data sequence.
use vstd::prelude::*;
use std::collections::VecDeque;
use std::marker::PhantomData;
use crate::pairing::{Pair, zipped, longer, zip_longest};
use crate::plan::{
    Kind, Call, plan_upto, plan, calls_at, shorter, excess, tally, lemma_plan_upto_prefix,
    lemma_plan_upto_positions, lemma_plan_upto_tally,
};

verus! {

/// An ordered collection of elements of type `T`, kept position for position
/// in step with the data sequence it was last adjusted to. `E` is the error
/// type of the callbacks that create, update and destroy its elements.
pub struct AdjustingVec<T, E> {
    data: Vec<T>,
    errors: PhantomData<E>,
}

/// The callback that a reconciliation asks for next.
pub enum Step<T, A> {
    /// Run `create`; report its element with `created`.
    Create,
    /// Run `update` on this element and data item; report its element with `updated`.
    Update(T, A),
    /// Run `destroy` on this element; report its success with `destroyed`.
    Destroy(T),
    /// Nothing is left to run: the reconciliation completed or failed.
    Done,
}

/// What a reconciliation waits for.
enum Phase<T, A> {
    /// No callback is out.
    Idle,
    /// `create` is out; the data item waits for the new element.
    Creating(A),
    /// `create` returned this element; its `update` is next.
    Created(T, A),
    /// `update` is out.
    Updating,
    /// `destroy` is out.
    Destroying,
}

/// One reconciliation in progress: the elements taken from an
/// `AdjustingVec`, walked position by position against the data items.
pub struct Adjustment<T, A, E> {
    /// The pairs of the positions not yet begun.
    pairs: VecDeque<Pair<T, A>>,
    /// The new collection so far.
    built: Vec<T>,
    phase: Phase<T, A>,
    /// The error of the callback that failed, if one did.
    failure: Option<E>,
    elements: Ghost<Seq<T>>,
    items: Ghost<Seq<A>>,
    log: Ghost<Seq<Call>>,
}

impl<T, E> View for AdjustingVec<T, E> {
    type V = Seq<T>;

    closed spec fn view(&self) -> Seq<T> {
        self.data@
    }
}

impl<T, E> AdjustingVec<T, E> {
    /// An empty collection.
    pub fn new() -> (r: Self)
        ensures
            r@ == Seq::<T>::empty(),
    {
        AdjustingVec { data: Vec::new(), errors: PhantomData }
    }

    /// The number of elements.
    pub fn len(&self) -> (r: usize)
        ensures
            r == self@.len(),
    {
        self.data.len()
    }

    /// The elements, in order.
    pub fn as_slice(&self) -> (r: &[T])
        ensures
            r@ == self@,
    {
        self.data.as_slice()
    }

    /// Begins reconciling the collection against `items`. The collection
    /// hands all its elements to the returned reconciliation and stays empty
    /// until `finish` installs the new ones.
    pub fn begin<A>(&mut self, items: Vec<A>) -> (r: Adjustment<T, A, E>)
        ensures
            r.wf(),
            r.elements() == old(self)@,
            r.items() == items@,
            r.built() == Seq::<T>::empty(),
            r.log() == Seq::<Call>::empty(),
            r.failure() is None,
            r.pending() is None,
            r.fresh() is None,
            final(self)@ == Seq::<T>::empty(),
    {
        let mut elements: Vec<T> = Vec::new();
        std::mem::swap(&mut self.data, &mut elements);
        let ghost taken = elements@;
        let ghost given = items@;
        let pairs = zip_longest(elements, items);
        let r = Adjustment {
            pairs,
            built: Vec::new(),
            phase: Phase::Idle,
            failure: None,
            elements: Ghost(taken),
            items: Ghost(given),
            log: Ghost(Seq::empty()),
        };
        assert(r.pairs@ =~= zipped(taken, given).skip(0));
        assert(r.log@ =~= plan_upto(taken.len(), given.len(), 0));
        r
    }

    /// Ends a reconciliation: the collection becomes the elements that it
    /// built, in order. That is every element for the data items where it
    /// completed; where a callback failed, it is the elements built before
    /// the failure, the error is returned, and the elements of positions not
    /// reached are dropped without their callback.
    pub fn finish<A>(&mut self, adjustment: Adjustment<T, A, E>) -> (r: Result<(), E>)
        requires
            adjustment.wf(),
            adjustment.finished(),
        ensures
            final(self)@ == adjustment.built(),
            match adjustment.failure() {
                Some(e) => r == Err::<(), E>(e),
                None => r is Ok,
            },
    {
        let Adjustment { built, failure, .. } = adjustment;
        self.data = built;
        match failure {
            Some(e) => Err(e),
            None => Ok(()),
        }
    }
}

impl<T, A, E> Adjustment<T, A, E> {
    /// The elements that the collection held when the reconciliation began.
    pub closed spec fn elements(&self) -> Seq<T> {
        self.elements@
    }

    /// The data items that the collection is reconciled against.
    pub closed spec fn items(&self) -> Seq<A> {
        self.items@
    }

    /// The elements of the new collection so far, in order.
    pub closed spec fn built(&self) -> Seq<T> {
        self.built@
    }

    /// Every callback handed out so far, in order.
    pub closed spec fn log(&self) -> Seq<Call> {
        self.log@
    }

    /// The error of the callback that failed, if one did.
    pub closed spec fn failure(&self) -> Option<E> {
        self.failure
    }

    /// The callback whose outcome is awaited, if one is.
    pub closed spec fn pending(&self) -> Option<Kind> {
        if self.failure is Some {
            None
        } else {
            match self.phase {
                Phase::Creating(_) => Some(Kind::Create),
                Phase::Updating => Some(Kind::Update),
                Phase::Destroying => Some(Kind::Destroy),
                _ => None,
            }
        }
    }

    /// The element that `create` returned and that waits for its `update`.
    pub closed spec fn fresh(&self) -> Option<T> {
        match self.phase {
            Phase::Created(t, _) => Some(t),
            _ => None,
        }
    }

    /// The callbacks that the whole reconciliation makes.
    pub open spec fn planned(&self) -> Seq<Call> {
        plan(self.elements().len(), self.items().len())
    }

    /// Every planned callback ran and none failed.
    pub open spec fn completed(&self) -> bool {
        &&& self.failure() is None
        &&& self.pending() is None
        &&& self.log() == self.planned()
    }

    /// No further callback will be handed out.
    pub open spec fn finished(&self) -> bool {
        self.failure() is Some || self.completed()
    }

    /// The number of positions begun.
    closed spec fn position(&self) -> nat {
        (longer(self.elements@.len(), self.items@.len()) - self.pairs@.len()) as nat
    }

    /// While nothing is out, the reconciliation has finished exactly when no
    /// callback is left to hand out.
    proof fn lemma_done_iff_finished(&self)
        requires
            self.wf(),
            self.pending() is None,
        ensures
            self.finished() <==> (self.failure is Some || (self.phase is Idle && self.pairs@.len() == 0)),
            self.log@.len() <= self.planned().len(),
    {
        let m = self.elements@.len();
        let n = self.items@.len();
        let total = longer(m, n);
        let pos = self.position();
        if self.failure is None {
            match self.phase {
                Phase::Idle => {
                    lemma_plan_upto_prefix(m, n, pos, total);
                },
                Phase::Created(_, _) => {
                    lemma_plan_upto_prefix(m, n, pos, total);
                    assert(plan_upto(m, n, pos) =~= self.log@.push(Call { kind: Kind::Update, pos: (pos - 1) as nat }));
                },
                _ => {},
            }
        }
    }

    /// A completed reconciliation has served every position.
    proof fn lemma_completed(&self)
        requires
            self.wf(),
            self.completed(),
        ensures
            self.built@.len() == self.items@.len(),
    {
        let m = self.elements@.len();
        let n = self.items@.len();
        let total = longer(m, n);
        let pos = self.position();
        match self.phase {
            Phase::Idle => {
                if pos < total {
                    lemma_plan_upto_prefix(m, n, pos, total);
                }
            },
            Phase::Created(_, _) => {
                lemma_plan_upto_prefix(m, n, pos, total);
                assert(plan_upto(m, n, pos) =~= self.log@.push(Call { kind: Kind::Update, pos: (pos - 1) as nat }));
            },
            _ => {},
        }
    }

    /// The update out serves the position after the elements built.
    proof fn lemma_pending_update(&self)
        requires
            self.wf(),
            self.pending() == Some(Kind::Update),
        ensures
            self.log@.len() > 0,
            self.log@.last() == (Call { kind: Kind::Update, pos: (self.position() - 1) as nat }),
            self.position() - 1 < self.items@.len(),
            self.built@.len() == self.position() - 1,
    {
    }

    /// A failed reconciliation logged nothing after the callback that failed.
    proof fn lemma_failed(&self)
        requires
            self.wf(),
            self.failure is Some,
        ensures
            self.log@.len() > 0,
            forall|i: int|
                0 <= i < self.log@.len() ==> #[trigger] self.log@[i].pos <= self.log@.last().pos,
    {
        let m = self.elements@.len();
        let n = self.items@.len();
        let pos = self.position();
        match self.phase {
            Phase::Creating(_) => {
                let k = (pos - 1) as nat;
                lemma_plan_upto_positions(m, n, k);
                assert forall|i: int| 0 <= i < self.log@.len() implies #[trigger] self.log@[i].pos
                    <= self.log@.last().pos by {
                    if i < plan_upto(m, n, k).len() {
                        assert(self.log@[i] == plan_upto(m, n, k)[i]);
                    }
                }
            },
            _ => {
                lemma_plan_upto_positions(m, n, pos);
            },
        }
    }

    /// Taking the pair of position `pos` and logging its first callback
    /// keeps the reconciliation consistent.
    proof fn lemma_next_position(&self, pos: nat, log0: Seq<Call>, pairs0: Seq<Pair<T, A>>)
        requires
            pos < longer(self.elements@.len(), self.items@.len()),
            pairs0.len() > 0,
            pairs0 == zipped(self.elements@, self.items@).skip(pos as int),
            self.pairs@ == pairs0.subrange(1, pairs0.len() as int),
            log0 == plan_upto(self.elements@.len(), self.items@.len(), pos),
            self.log@ == log0.push(calls_at(self.elements@.len(), self.items@.len(), pos)[0]),
        ensures
            self.position() == pos + 1,
            self.pairs@ == zipped(self.elements@, self.items@).skip(pos + 1int),
            self.log@.is_prefix_of(plan(self.elements@.len(), self.items@.len())),
            calls_at(self.elements@.len(), self.items@.len(), pos).len() == 1 ==> self.log@ == plan_upto(
                self.elements@.len(),
                self.items@.len(),
                pos + 1,
            ),
    {
        assert(self.pairs@ =~= zipped(self.elements@, self.items@).skip(pos + 1int));
        let m = self.elements@.len();
        let n = self.items@.len();
        lemma_plan_upto_prefix(m, n, pos + 1, longer(m, n));
        let c = calls_at(m, n, pos);
        if c.len() == 1 {
            assert(plan_upto(m, n, pos + 1) =~= log0.push(c[0]));
        } else {
            assert(plan_upto(m, n, pos + 1).subrange(0, self.log@.len() as int) =~= self.log@);
        }
    }

    /// The reconciliation's internal consistency.
    pub closed spec fn wf(&self) -> bool {
        let m = self.elements@.len();
        let n = self.items@.len();
        let pos = self.position();
        &&& self.pairs@.len() <= longer(m, n)
        &&& self.pairs@ == zipped(self.elements@, self.items@).skip(pos as int)
        &&& self.log@.is_prefix_of(plan(m, n))
        &&& self.failure is Some ==> !(self.phase is Idle || self.phase is Created)
        &&& match self.phase {
            Phase::Idle => {
                &&& self.log@ == plan_upto(m, n, pos)
                &&& self.built@.len() == shorter(pos, n)
            },
            Phase::Creating(a) => {
                &&& m < pos <= n
                &&& a == self.items@[pos - 1]
                &&& self.log@ == plan_upto(m, n, (pos - 1) as nat).push(
                    Call { kind: Kind::Create, pos: (pos - 1) as nat },
                )
                &&& self.built@.len() == pos - 1
            },
            Phase::Created(_, a) => {
                &&& m < pos <= n
                &&& a == self.items@[pos - 1]
                &&& self.log@ == plan_upto(m, n, (pos - 1) as nat).push(
                    Call { kind: Kind::Create, pos: (pos - 1) as nat },
                )
                &&& self.built@.len() == pos - 1
            },
            Phase::Updating => {
                &&& 0 < pos <= n
                &&& self.log@ == plan_upto(m, n, pos)
                &&& self.log@.last() == Call { kind: Kind::Update, pos: (pos - 1) as nat }
                &&& self.built@.len() == pos - 1
            },
            Phase::Destroying => {
                &&& n < pos <= m
                &&& self.log@ == plan_upto(m, n, pos)
                &&& self.log@.last() == Call { kind: Kind::Destroy, pos: (pos - 1) as nat }
                &&& self.built@.len() == n
            },
        }
    }
}


impl<T, A, E> Adjustment<T, A, E> {
    /// Hands out the next callback to run. Positions are served in
    /// increasing order: an update where an element and a data item meet,
    /// a create and then an update where only the data item is left, a
    /// destroy where only the element is left. Once a callback has failed,
    /// or every position is served, nothing more is handed out.
    pub fn next_step(&mut self) -> (r: Step<T, A>)
        requires
            old(self).wf(),
            old(self).pending() is None,
        ensures
            final(self).wf(),
            final(self).elements() == old(self).elements(),
            final(self).items() == old(self).items(),
            (r is Done) == old(self).finished(),
            r is Done ==> *final(self) == *old(self),
            r !is Done ==> {
                &&& old(self).log().len() < old(self).planned().len()
                &&& final(self).log() == old(self).log().push(old(self).planned()[old(self).log().len() as int])
                &&& final(self).built() == old(self).built()
                &&& final(self).failure() is None
                &&& final(self).fresh() is None
            },
            match r {
                Step::Create => final(self).pending() == Some(Kind::Create)
                    && final(self).log().last().kind == Kind::Create,
                Step::Update(t, a) => {
                    let i = final(self).log().last().pos as int;
                    &&& final(self).pending() == Some(Kind::Update)
                    &&& final(self).log().last().kind == Kind::Update
                    &&& a == old(self).items()[i]
                    &&& i < old(self).elements().len() ==> t == old(self).elements()[i]
                    &&& i >= old(self).elements().len() ==> old(self).fresh() == Some(t)
                },
                Step::Destroy(t) => {
                    let i = final(self).log().last().pos as int;
                    &&& final(self).pending() == Some(Kind::Destroy)
                    &&& final(self).log().last().kind == Kind::Destroy
                    &&& t == old(self).elements()[i]
                },
                Step::Done => true,
            },
    {
        proof {
            self.lemma_done_iff_finished();
        }
        if self.failure.is_some() {
            return Step::Done;
        }
        if let Phase::Idle = self.phase {
            if self.pairs.len() == 0 {
                return Step::Done;
            }
        }
        let ghost m = self.elements@.len();
        let ghost n = self.items@.len();
        let ghost pos = self.position();
        let ghost log0 = self.log@;
        let ghost pairs0 = self.pairs@;
        let mut phase = Phase::Idle;
        std::mem::swap(&mut self.phase, &mut phase);
        match phase {
            Phase::Created(t, a) => {
                self.phase = Phase::Updating;
                self.log = Ghost(self.log@.push(Call { kind: Kind::Update, pos: (pos - 1) as nat }));
                proof {
                    assert(plan_upto(m, n, pos) =~= self.log@);
                    lemma_plan_upto_prefix(m, n, pos, longer(m, n));
                }
                Step::Update(t, a)
            },
            Phase::Idle => {
                match self.pairs.pop_front() {
                    None => {
                        self.phase = Phase::Idle;
                        Step::Done
                    },
                    Some(Pair::Both(t, a)) => {
                        self.phase = Phase::Updating;
                        self.log = Ghost(self.log@.push(Call { kind: Kind::Update, pos }));
                        proof {
                            self.lemma_next_position(pos, log0, pairs0);
                        }
                        Step::Update(t, a)
                    },
                    Some(Pair::Right(a)) => {
                        self.phase = Phase::Creating(a);
                        self.log = Ghost(self.log@.push(Call { kind: Kind::Create, pos }));
                        proof {
                            self.lemma_next_position(pos, log0, pairs0);
                        }
                        Step::Create
                    },
                    Some(Pair::Left(t)) => {
                        self.phase = Phase::Destroying;
                        self.log = Ghost(self.log@.push(Call { kind: Kind::Destroy, pos }));
                        proof {
                            self.lemma_next_position(pos, log0, pairs0);
                        }
                        Step::Destroy(t)
                    },
                }
            },
            // A callback is out: ruled out by `requires`.
            other => {
                self.phase = other;
                Step::Done
            },
        }
    }

    /// Reports the element that `create` returned. Its `update` comes next.
    pub fn created(&mut self, element: T)
        requires
            old(self).wf(),
            old(self).pending() == Some(Kind::Create),
        ensures
            final(self).wf(),
            final(self).elements() == old(self).elements(),
            final(self).items() == old(self).items(),
            final(self).built() == old(self).built(),
            final(self).log() == old(self).log(),
            final(self).failure() is None,
            final(self).pending() is None,
            final(self).fresh() == Some(element),
    {
        let mut phase = Phase::Idle;
        std::mem::swap(&mut self.phase, &mut phase);
        match phase {
            Phase::Creating(a) => {
                self.phase = Phase::Created(element, a);
            },
            // No create is out: ruled out by `requires`.
            other => {
                self.phase = other;
            },
        }
    }

    /// Reports the element that `update` returned: it takes the next place
    /// of the new collection, which is the place of the position updated.
    pub fn updated(&mut self, element: T)
        requires
            old(self).wf(),
            old(self).pending() == Some(Kind::Update),
        ensures
            final(self).wf(),
            final(self).elements() == old(self).elements(),
            final(self).items() == old(self).items(),
            old(self).built().len() == old(self).log().last().pos,
            final(self).built() == old(self).built().push(element),
            final(self).log() == old(self).log(),
            final(self).failure() is None,
            final(self).pending() is None,
            final(self).fresh() is None,
    {
        self.built.push(element);
        self.phase = Phase::Idle;
    }

    /// Reports that `destroy` succeeded: its element leaves for good.
    pub fn destroyed(&mut self)
        requires
            old(self).wf(),
            old(self).pending() == Some(Kind::Destroy),
        ensures
            final(self).wf(),
            final(self).elements() == old(self).elements(),
            final(self).items() == old(self).items(),
            final(self).built() == old(self).built(),
            final(self).log() == old(self).log(),
            final(self).failure() is None,
            final(self).pending() is None,
            final(self).fresh() is None,
    {
        self.phase = Phase::Idle;
    }

    /// Reports that the callback out failed with `error`. The reconciliation
    /// stops: no further callback is handed out, and `finish` returns this
    /// error.
    pub fn failed(&mut self, error: E)
        requires
            old(self).wf(),
            old(self).pending() is Some,
        ensures
            final(self).wf(),
            final(self).elements() == old(self).elements(),
            final(self).items() == old(self).items(),
            final(self).built() == old(self).built(),
            final(self).log() == old(self).log(),
            final(self).failure() == Some(error),
            final(self).pending() is None,
            final(self).fresh() is None,
    {
        self.failure = Some(error);
    }
}

/// A reconciliation that completed leaves exactly one element for each data
/// item.
pub proof fn law_length<T, A, E>(adjustment: &Adjustment<T, A, E>)
    requires
        adjustment.wf(),
        adjustment.completed(),
    ensures
        adjustment.built().len() == adjustment.items().len(),
{
    adjustment.lemma_completed();
}

/// While an update is out, the new collection holds exactly the elements of
/// the positions before it, so the element that update returns takes the
/// place of the data item it was handed.
pub proof fn law_order<T, A, E>(adjustment: &Adjustment<T, A, E>)
    requires
        adjustment.wf(),
        adjustment.pending() == Some(Kind::Update),
    ensures
        adjustment.log().len() > 0,
        adjustment.log().last().kind == Kind::Update,
        adjustment.log().last().pos < adjustment.items().len(),
        adjustment.built().len() == adjustment.log().last().pos,
{
    adjustment.lemma_pending_update();
}

/// A reconciliation that completed ran `create` once for each data item
/// beyond the old elements, `update` once for each data item, and `destroy`
/// once for each old element beyond the data items.
pub proof fn law_completed_tally<T, A, E>(adjustment: &Adjustment<T, A, E>)
    requires
        adjustment.wf(),
        adjustment.completed(),
    ensures
        tally(adjustment.log(), Kind::Create) == excess(
            adjustment.items().len(),
            adjustment.elements().len(),
        ),
        tally(adjustment.log(), Kind::Update) == adjustment.items().len(),
        tally(adjustment.log(), Kind::Destroy) == excess(
            adjustment.elements().len(),
            adjustment.items().len(),
        ),
{
    let m = adjustment.elements().len();
    let n = adjustment.items().len();
    lemma_plan_upto_tally(m, n, longer(m, n));
}

/// After a reconciliation completed, reconciling the new collection against
/// a data sequence of the same length only updates: it creates and destroys
/// nothing.
pub proof fn law_readjust_same_length<T, A, E, B>(
    adjustment: &Adjustment<T, A, E>,
    next_items: Seq<B>,
)
    requires
        adjustment.wf(),
        adjustment.completed(),
        next_items.len() == adjustment.items().len(),
    ensures
        tally(plan(adjustment.built().len(), next_items.len()), Kind::Create) == 0,
        tally(plan(adjustment.built().len(), next_items.len()), Kind::Destroy) == 0,
        tally(plan(adjustment.built().len(), next_items.len()), Kind::Update) == next_items.len(),
{
    adjustment.lemma_completed();
    let n = next_items.len();
    lemma_plan_upto_tally(n, n, n);
}

/// Once a callback has failed, it is the last callback handed out: every
/// callback before it served its position or an earlier one, and all of them
/// ran in the planned order.
pub proof fn law_fail_fast<T, A, E>(adjustment: &Adjustment<T, A, E>)
    requires
        adjustment.wf(),
        adjustment.failure() is Some,
    ensures
        adjustment.finished(),
        adjustment.log().len() > 0,
        adjustment.log().is_prefix_of(adjustment.planned()),
        forall|i: int|
            0 <= i < adjustment.log().len() ==> #[trigger] adjustment.log()[i].pos <= adjustment.log().last().pos,
{
    adjustment.lemma_failed();
}

} // verus!
