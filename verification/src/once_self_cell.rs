//! A lazy cell that keeps its builder: the one builder it was made with builds
//! the dependent on first access, so no two accesses can disagree on how the
//! dependent comes about.

use vstd::prelude::*;
use crate::unsafe_once_self_cell::LazyState;
use crate::unsafe_once_self_cell::UnsafeOnceSelfCell;

verus! {

/// The lazy cell with its builder.
pub struct OnceSelfCell<Owner, Dependent, Builder> {
    cell: UnsafeOnceSelfCell<Owner, Dependent>,
    make_dependent: Builder,
}

impl<Owner, Dependent, Builder: Fn(&Owner) -> Dependent> OnceSelfCell<Owner, Dependent, Builder> {
    /// The owner and what the slot holds.
    pub closed spec fn view(&self) -> LazyState<Owner, Dependent> {
        self.cell@
    }

    /// The builder that the cell was made with.
    pub closed spec fn builder(&self) -> Builder {
        self.make_dependent
    }

    /// A cell with `owner`, an empty slot, and `make_dependent` to fill it.
    pub fn new(owner: Owner, make_dependent: Builder) -> (cell: Self)
        ensures
            cell@.owner == owner,
            cell@.dependent is None,
            cell.builder() == make_dependent,
    {
        OnceSelfCell { cell: UnsafeOnceSelfCell::new(owner), make_dependent }
    }

    /// The owner.
    pub fn get_owner(&self) -> (owner: &Owner)
        ensures
            *owner == self@.owner,
    {
        self.cell.get_owner()
    }

    /// The dependent. Where none is published yet, the cell's builder builds
    /// it from the owner and it is published; where one is, it is handed out
    /// and the builder is not run.
    pub fn get_or_init_dependent(&mut self) -> (dependent: &Dependent)
        requires
            old(self)@.dependent is None ==> call_requires(
                old(self).builder(),
                (&old(self)@.owner,),
            ),
        ensures
            final(self).builder() == old(self).builder(),
            old(self)@.requested(old(self).builder(), final(self)@, *dependent),
    {
        self.cell.get_or_init_dependent(&self.make_dependent)
    }

    /// Whether a dependent is published.
    pub fn is_initialized(&self) -> (initialized: bool)
        ensures
            initialized == self@.dependent is Some,
    {
        self.cell.is_initialized()
    }

    /// Whether the slot is empty.
    pub fn dependent_is_none(&self) -> (none: bool)
        ensures
            none == self@.dependent is None,
    {
        self.cell.dependent_is_none()
    }

    /// Empties the slot and hands out what it held.
    pub fn take_dependent(&mut self) -> (taken: Option<Dependent>)
        ensures
            taken == old(self)@.dependent,
            final(self)@.owner == old(self)@.owner,
            final(self)@.dependent is None,
            final(self).builder() == old(self).builder(),
    {
        self.cell.take_dependent()
    }
}

impl<Owner: Clone, Dependent, Builder: Fn(&Owner) -> Dependent + Clone> Clone for OnceSelfCell<
    Owner,
    Dependent,
    Builder,
> {
    /// A cell with a clone of the owner, a clone of the builder and an empty
    /// slot: the clone builds its own dependent on its first access.
    fn clone(&self) -> (cell: Self)
        ensures
            cloned(self@.owner, cell@.owner),
            cloned(self.builder(), cell.builder()),
            cell@.dependent is None,
    {
        OnceSelfCell { cell: self.cell.clone(), make_dependent: self.make_dependent.clone() }
    }
}

} // verus!
