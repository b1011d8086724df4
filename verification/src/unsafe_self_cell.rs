//! The eager cell: an owner and the dependent built from it, held in one heap
//! block and handed around as one value.
//!
//! A dependent is a value computed from a reference to the owner. It holds
//! what it needs of the owner as plain values (positions, copies), so the
//! pair can move freely; the cell keeps the two together, never changes the
//! owner, and lets the dependent go before the owner.

use vstd::prelude::*;
use core::marker::PhantomData;
use crate::layout::dependent_offset_of;
use crate::layout::joined_size_of;
use crate::layout::lemma_align_bound;
use crate::layout::lemma_joined_size_zero;
use crate::layout::lemma_round_up_is_least_multiple;

verus! {

/// The joined pair. The dependent is declared first: fields are destroyed in
/// the order of their declaration, so the dependent goes before the owner it
/// was built from.
pub struct JoinedCell<Owner, Dependent> {
    pub dependent: Dependent,
    pub owner: Owner,
}

impl<Owner, Dependent> JoinedCell<Owner, Dependent> {
    /// The offset of the dependent in a block laid out in sequence: the
    /// owner's size, rounded up to the dependent's alignment.
    pub fn dependent_offset() -> (offset: usize)
        ensures
            offset == dependent_offset_of::<Owner, Dependent>(),
    {
        let size: usize = core::mem::size_of::<Owner>();
        let align: usize = core::mem::align_of::<Dependent>();
        vstd::layout::layout_for_type_is_valid::<Owner>();
        vstd::layout::layout_for_type_is_valid::<Dependent>();
        proof {
            lemma_align_bound(align);
            lemma_round_up_is_least_multiple(size as nat, align as nat);
        }
        let rem: usize = size % align;
        if rem == 0 {
            size
        } else {
            size + (align - rem)
        }
    }

    /// Whether a block for this pair would be empty. Such a block has no
    /// address of its own, and no cell can be built on it.
    pub fn is_zero_sized() -> (zero: bool)
        ensures
            zero == (joined_size_of::<Owner, Dependent>() == 0),
    {
        proof {
            lemma_joined_size_zero::<Owner, Dependent>();
        }
        core::mem::size_of::<Owner>() == 0 && core::mem::size_of::<Dependent>() == 0
    }
}

/// An owner that has been placed and waits for its dependent. Dropping the
/// guard destroys the owner alone: no dependent exists yet.
pub struct OwnerAndCellDropGuard<Owner, Dependent> {
    owner: Owner,
    dependent_marker: PhantomData<Dependent>,
}

impl<Owner, Dependent> OwnerAndCellDropGuard<Owner, Dependent> {
    /// The owner that the guard holds.
    pub closed spec fn view(&self) -> Owner {
        self.owner
    }

    /// Places `owner`.
    pub fn new(owner: Owner) -> (guard: Self)
        ensures
            guard@ == owner,
    {
        OwnerAndCellDropGuard { owner, dependent_marker: PhantomData }
    }

    /// The placed owner, for the builder to read.
    pub fn borrow_owner(&self) -> (owner: &Owner)
        ensures
            *owner == self@,
    {
        &self.owner
    }

    /// Ends the construction with the dependent that was built.
    pub fn join(self, dependent: Dependent) -> (joined: JoinedCell<Owner, Dependent>)
        ensures
            joined.owner == self@,
            joined.dependent == dependent,
    {
        JoinedCell { dependent, owner: self.owner }
    }

    /// Gives the owner back, where no dependent was built.
    pub fn into_owner(self) -> (owner: Owner)
        ensures
            owner == self@,
    {
        self.owner
    }
}

/// The cell: the joined pair in a heap block of its own.
pub struct UnsafeSelfCell<Owner, Dependent> {
    joined: Box<JoinedCell<Owner, Dependent>>,
}

impl<Owner, Dependent> UnsafeSelfCell<Owner, Dependent> {
    /// The pair that the cell holds.
    pub closed spec fn view(&self) -> JoinedCell<Owner, Dependent> {
        *self.joined
    }

    /// What `new(owner, dependent_builder)` hands out: a cell with that owner
    /// and a dependent that the builder gives for it.
    pub open spec fn is_new<F: FnOnce(&Owner) -> Dependent>(
        &self,
        owner: Owner,
        dependent_builder: F,
    ) -> bool {
        &&& self@.owner == owner
        &&& call_ensures(dependent_builder, (&owner,), self@.dependent)
    }

    /// Wraps a finished pair.
    pub fn from_joined(joined: JoinedCell<Owner, Dependent>) -> (cell: Self)
        requires
            joined_size_of::<Owner, Dependent>() != 0,
        ensures
            cell@ == joined,
    {
        UnsafeSelfCell { joined: Box::new(joined) }
    }

    /// Builds a cell: places `owner`, then runs `dependent_builder` on it and
    /// stores what it returns.
    pub fn new<F: FnOnce(&Owner) -> Dependent>(owner: Owner, dependent_builder: F) -> (cell: Self)
        requires
            joined_size_of::<Owner, Dependent>() != 0,
            call_requires(dependent_builder, (&owner,)),
        ensures
            cell.is_new(owner, dependent_builder),
    {
        let guard = OwnerAndCellDropGuard::new(owner);
        let dependent = dependent_builder(guard.borrow_owner());
        Self::from_joined(guard.join(dependent))
    }

    /// Builds a cell with a builder that may fail. The owner is destroyed on
    /// failure.
    pub fn try_new<Failure, F: FnOnce(&Owner) -> Result<Dependent, Failure>>(
        owner: Owner,
        dependent_builder: F,
    ) -> (res: Result<Self, Failure>)
        requires
            joined_size_of::<Owner, Dependent>() != 0,
            call_requires(dependent_builder, (&owner,)),
        ensures
            match res {
                Ok(cell) => cell@.owner == owner && call_ensures(
                    dependent_builder,
                    (&owner,),
                    Ok(cell@.dependent),
                ),
                Err(err) => call_ensures(dependent_builder, (&owner,), Err(err)),
            },
    {
        let guard = OwnerAndCellDropGuard::new(owner);
        match dependent_builder(guard.borrow_owner()) {
            Ok(dependent) => Ok(Self::from_joined(guard.join(dependent))),
            Err(err) => Err(err),
        }
    }

    /// Builds a cell with a builder that may fail. The owner comes back on
    /// failure, beside the builder's error.
    pub fn try_new_or_recover<Failure, F: FnOnce(&Owner) -> Result<Dependent, Failure>>(
        owner: Owner,
        dependent_builder: F,
    ) -> (res: Result<Self, (Owner, Failure)>)
        requires
            joined_size_of::<Owner, Dependent>() != 0,
            call_requires(dependent_builder, (&owner,)),
        ensures
            match res {
                Ok(cell) => cell@.owner == owner && call_ensures(
                    dependent_builder,
                    (&owner,),
                    Ok(cell@.dependent),
                ),
                Err(recovered) => recovered.0 == owner && call_ensures(
                    dependent_builder,
                    (&owner,),
                    Err(recovered.1),
                ),
            },
    {
        let guard = OwnerAndCellDropGuard::new(owner);
        match dependent_builder(guard.borrow_owner()) {
            Ok(dependent) => Ok(Self::from_joined(guard.join(dependent))),
            Err(err) => Err((guard.into_owner(), err)),
        }
    }

    /// Builds a second cell from a clone of this cell's owner. Its dependent
    /// is built anew from that clone and shares nothing with this cell's.
    pub fn clone_with<F: FnOnce(&Owner) -> Dependent>(&self, dependent_builder: F) -> (cell: Self)
        where Owner: Clone
        requires
            joined_size_of::<Owner, Dependent>() != 0,
            forall|owner: Owner|
                cloned(self@.owner, owner) ==> call_requires(dependent_builder, (&owner,)),
        ensures
            cloned(self@.owner, cell@.owner),
            cell.is_new(cell@.owner, dependent_builder),
    {
        let owner = self.joined.owner.clone();
        assert(cloned(self@.owner, owner));
        Self::new(owner, dependent_builder)
    }

    /// The owner.
    pub fn borrow_owner(&self) -> (owner: &Owner)
        ensures
            *owner == self@.owner,
    {
        &self.joined.owner
    }

    /// The dependent.
    pub fn borrow_dependent(&self) -> (dependent: &Dependent)
        ensures
            *dependent == self@.dependent,
    {
        &self.joined.dependent
    }

    /// The owner, and the dependent for change. The owner stays as it is;
    /// the cell's dependent is what the caller leaves behind the reference.
    pub fn borrow_mut(&mut self) -> (parts: (&Owner, &mut Dependent))
        ensures
            *parts.0 == old(self)@.owner,
            *parts.1 == old(self)@.dependent,
            final(self)@.owner == old(self)@.owner,
            final(self)@.dependent == *final(parts.1),
    {
        let joined = &mut *self.joined;
        (&joined.owner, &mut joined.dependent)
    }

    /// Runs `func` on the owner and the dependent and hands its result on.
    pub fn with_dependent<Ret, F: FnOnce(&Owner, &Dependent) -> Ret>(&self, func: F) -> (ret: Ret)
        requires
            call_requires(func, (&self@.owner, &self@.dependent)),
        ensures
            call_ensures(func, (&self@.owner, &self@.dependent), ret),
    {
        func(&self.joined.owner, &self.joined.dependent)
    }

    /// Runs `func` on the owner and, for change, the dependent. The owner
    /// stays as it is; the cell's dependent is what `func` left.
    pub fn with_dependent_mut<Ret, F: FnOnce(&Owner, &mut Dependent) -> Ret>(
        &mut self,
        func: F,
    ) -> (ret: Ret)
        requires
            forall|dependent: &mut Dependent|
                *dependent == old(self)@.dependent ==> call_requires(
                    func,
                    (&old(self)@.owner, dependent),
                ),
        ensures
            final(self)@.owner == old(self)@.owner,
            exists|dependent: &mut Dependent|
                *dependent == old(self)@.dependent && *final(dependent) == final(self)@.dependent
                    && #[trigger] call_ensures(func, (&old(self)@.owner, dependent), ret),
    {
        let (owner, dependent) = self.borrow_mut();
        func(owner, dependent)
    }

    /// Takes the cell apart and hands out the owner. The dependent is
    /// destroyed first.
    pub fn into_owner(self) -> (owner: Owner)
        ensures
            owner == self@.owner,
    {
        let joined = *self.joined;
        let owner = joined.owner;
        {
            let _dependent = joined.dependent;
        }
        owner
    }

    /// Destroys the dependent, then the owner, and frees the block.
    pub fn drop_joined(self) {
        let joined = *self.joined;
        let owner = joined.owner;
        {
            let _dependent = joined.dependent;
        }
        {
            let _owner = owner;
        }
    }

    /// After `new(owner, dependent_builder)` the cell shows `owner` as its
    /// owner, and as its dependent the value that the builder gives for
    /// `owner`, where it gives only one.
    pub proof fn lemma_new_shows_owner_and_built_dependent<F: FnOnce(&Owner) -> Dependent>(
        cell: Self,
        owner: Owner,
        dependent_builder: F,
        built: Dependent,
    )
        requires
            cell.is_new(owner, dependent_builder),
            forall|dependent: Dependent|
                call_ensures(dependent_builder, (&owner,), dependent) ==> dependent == built,
        ensures
            cell@.owner == owner,
            cell@.dependent == built,
    {
    }

    /// Taking apart a cell that `new(owner, dependent_builder)` built hands
    /// `owner` back.
    pub proof fn lemma_into_owner_of_new<F: FnOnce(&Owner) -> Dependent>(
        cell: Self,
        owner: Owner,
        dependent_builder: F,
    )
        requires
            cell.is_new(owner, dependent_builder),
        ensures
            cell@.owner == owner,
    {
    }
}

} // verus!
