//! The lazy cell: an owner whose dependent is built on first access, once.
//!
//! The slot is either empty or holds the one dependent that was published.
//! Filling it takes exclusive access, so of any number of callers that ask
//! for the dependent one runs its builder, and every later one is handed what
//! that builder gave.

use vstd::prelude::*;

verus! {

/// What a lazy cell holds: its owner, and the dependent once it is published.
pub struct LazyState<Owner, Dependent> {
    pub owner: Owner,
    pub dependent: Option<Dependent>,
}

impl<Owner, Dependent> LazyState<Owner, Dependent> {
    /// Whether `after` and `returned` are what one request for the dependent
    /// with `make_dependent` leaves and hands out, starting from `self`: the
    /// published dependent where there is one; else one that the builder
    /// gives for the owner, which is then published.
    pub open spec fn requested<F: FnOnce(&Owner) -> Dependent>(
        self,
        make_dependent: F,
        after: Self,
        returned: Dependent,
    ) -> bool {
        &&& after.owner == self.owner
        &&& after.dependent == Some(returned)
        &&& match self.dependent {
            Some(published) => returned == published,
            None => call_ensures(make_dependent, (&self.owner,), returned),
        }
    }

    /// Once a dependent is published, a request hands out that dependent and
    /// leaves the cell as it was, whatever builder comes with it.
    pub proof fn lemma_request_when_published<F: FnOnce(&Owner) -> Dependent>(
        self,
        make_dependent: F,
        after: Self,
        returned: Dependent,
    )
        requires
            self.dependent is Some,
            self.requested(make_dependent, after, returned),
        ensures
            self.dependent == Some(returned),
            after == self,
    {
    }

    /// Two requests in a row hand out the same dependent, and it is one that
    /// the first request's builder gave unless one was published before: the
    /// second builder adds nothing.
    pub proof fn lemma_second_request_repeats_first<
        F: FnOnce(&Owner) -> Dependent,
        G: FnOnce(&Owner) -> Dependent,
    >(
        self,
        first_builder: F,
        middle: Self,
        first: Dependent,
        second_builder: G,
        after: Self,
        second: Dependent,
    )
        requires
            self.requested(first_builder, middle, first),
            middle.requested(second_builder, after, second),
        ensures
            second == first,
            after == middle,
            self.dependent is None ==> call_ensures(first_builder, (&self.owner,), second),
    {
    }
}

/// The lazy cell. The slot is declared first: fields are destroyed in the
/// order of their declaration, so a published dependent goes before the owner
/// it was built from.
pub struct UnsafeOnceSelfCell<Owner, Dependent> {
    dependent_cell: Option<Dependent>,
    owner: Box<Owner>,
}

impl<Owner, Dependent> UnsafeOnceSelfCell<Owner, Dependent> {
    /// The owner and what the slot holds.
    pub closed spec fn view(&self) -> LazyState<Owner, Dependent> {
        LazyState { owner: *self.owner, dependent: self.dependent_cell }
    }

    /// A cell with `owner` and an empty slot.
    pub fn new(owner: Owner) -> (cell: Self)
        ensures
            cell@.owner == owner,
            cell@.dependent is None,
    {
        UnsafeOnceSelfCell { dependent_cell: None, owner: Box::new(owner) }
    }

    /// The owner.
    pub fn get_owner(&self) -> (owner: &Owner)
        ensures
            *owner == self@.owner,
    {
        &*self.owner
    }

    /// The dependent. Where none is published yet, `make_dependent` builds it
    /// from the owner and it is published; where one is, it is handed out and
    /// `make_dependent` is not run.
    pub fn get_or_init_dependent<F: FnOnce(&Owner) -> Dependent>(
        &mut self,
        make_dependent: F,
    ) -> (dependent: &Dependent)
        requires
            old(self)@.dependent is None ==> call_requires(make_dependent, (&old(self)@.owner,)),
        ensures
            old(self)@.requested(make_dependent, final(self)@, *dependent),
    {
        if self.dependent_cell.is_none() {
            let built = make_dependent(&*self.owner);
            self.dependent_cell = Some(built);
        }
        self.dependent_cell.as_ref().unwrap()
    }

    /// The dependent, if one is published.
    pub fn get_dependent(&self) -> (dependent: Option<&Dependent>)
        ensures
            match dependent {
                Some(published) => self@.dependent == Some(*published),
                None => self@.dependent is None,
            },
    {
        self.dependent_cell.as_ref()
    }

    /// Whether a dependent is published.
    pub fn is_initialized(&self) -> (initialized: bool)
        ensures
            initialized == self@.dependent is Some,
    {
        self.dependent_cell.is_some()
    }

    /// Whether the slot is empty.
    pub fn dependent_is_none(&self) -> (none: bool)
        ensures
            none == self@.dependent is None,
    {
        self.dependent_cell.is_none()
    }

    /// Empties the slot and hands out what it held.
    pub fn take_dependent(&mut self) -> (taken: Option<Dependent>)
        ensures
            taken == old(self)@.dependent,
            final(self)@.owner == old(self)@.owner,
            final(self)@.dependent is None,
    {
        self.dependent_cell.take()
    }

    /// Empties the slot and destroys what it held. The owner stays.
    pub fn drop_dependent(&mut self)
        ensures
            final(self)@.owner == old(self)@.owner,
            final(self)@.dependent is None,
    {
        self.dependent_cell = None;
    }

    /// Takes the cell apart and hands out the owner. A published dependent is
    /// destroyed first.
    pub fn into_owner(self) -> (owner: Owner)
        ensures
            owner == self@.owner,
    {
        let owner = *self.owner;
        {
            let _dependent = self.dependent_cell;
        }
        owner
    }
}

impl<Owner: Clone, Dependent> Clone for UnsafeOnceSelfCell<Owner, Dependent> {
    /// A cell with a clone of the owner and an empty slot: the clone builds
    /// its own dependent on its first access.
    fn clone(&self) -> (cell: Self)
        ensures
            cloned(self@.owner, cell@.owner),
            cell@.dependent is None,
    {
        let owner: Owner = (*self.owner).clone();
        UnsafeOnceSelfCell { dependent_cell: None, owner: Box::new(owner) }
    }
}

} // verus!
