//! Two cells over fixed types: one whose dependent stands for the owner as a
//! whole, one whose dependent marks words in the owner's text.

use vstd::prelude::*;
use vstd::string::StringSliceAdditionalSpecFns;
use vstd::utf8::is_char_boundary;
use crate::layout::joined_size_of;
use crate::layout::lemma_joined_size_zero;
use crate::unsafe_self_cell::JoinedCell;
use crate::unsafe_self_cell::UnsafeSelfCell;

verus! {

/// What a dependent of an `i32` owner holds: the number it read there.
pub type I32Ref = i32;

/// A cell of an `i32` and what was read from it.
pub struct I32Cell(UnsafeSelfCell<i32, I32Ref>);

impl I32Cell {
    /// The pair that the cell holds.
    pub closed spec fn view(&self) -> JoinedCell<i32, I32Ref> {
        self.0@
    }

    /// Builds a cell: places `owner`, then runs `dependent_builder` on it and
    /// stores what it returns.
    pub fn new<F: FnOnce(&i32) -> I32Ref>(owner: i32, dependent_builder: F) -> (cell: Self)
        requires
            call_requires(dependent_builder, (&owner,)),
        ensures
            cell@.owner == owner,
            call_ensures(dependent_builder, (&owner,), cell@.dependent),
    {
        proof {
            broadcast use vstd::layout::layout_of_primitives;

            lemma_joined_size_zero::<i32, I32Ref>();
        }
        I32Cell(UnsafeSelfCell::new(owner, dependent_builder))
    }

    /// Builds a cell with a builder that may fail, and hands the builder's
    /// error on.
    pub fn try_new<E, F: FnOnce(&i32) -> Result<I32Ref, E>>(owner: i32, dependent_builder: F) -> (res:
        Result<Self, E>)
        requires
            call_requires(dependent_builder, (&owner,)),
        ensures
            match res {
                Ok(cell) => cell@.owner == owner && call_ensures(
                    dependent_builder,
                    (&owner,),
                    Ok(cell@.dependent),
                ),
                Err(err) => call_ensures(dependent_builder, (&owner,), Err(err)),
            },
    {
        proof {
            broadcast use vstd::layout::layout_of_primitives;

            lemma_joined_size_zero::<i32, I32Ref>();
        }
        match UnsafeSelfCell::try_new(owner, dependent_builder) {
            Ok(cell) => Ok(I32Cell(cell)),
            Err(err) => Err(err),
        }
    }

    /// The owner.
    pub fn borrow_owner(&self) -> (owner: &i32)
        ensures
            *owner == self@.owner,
    {
        self.0.borrow_owner()
    }

    /// The dependent.
    pub fn borrow_dependent(&self) -> (dependent: &I32Ref)
        ensures
            *dependent == self@.dependent,
    {
        self.0.borrow_dependent()
    }
}

/// A stretch of the owner's text, by the byte positions where it starts and
/// where it ends. It refers to the owner without borrowing from it, and is
/// read against the owner with `resolve`.
#[derive(Clone, Copy, Debug, PartialEq, Eq, Structural)]
pub struct Span {
    pub start: usize,
    pub end: usize,
}

impl Span {
    /// Whether the span lies in a text of `len` bytes.
    pub open spec fn lies_in(self, len: nat) -> bool {
        self.start <= self.end <= len
    }

    /// Whether the span can be read from `text` as text of its own: it lies
    /// in `text`, and neither end cuts a character.
    pub open spec fn is_readable(self, text: Seq<u8>) -> bool {
        &&& self.lies_in(text.len())
        &&& is_char_boundary(text, self.start as int)
        &&& is_char_boundary(text, self.end as int)
    }

    /// The bytes of `text` that the span covers.
    pub open spec fn bytes_of(self, text: Seq<u8>) -> Seq<u8>
        recommends
            self.lies_in(text.len()),
    {
        text.subrange(self.start as int, self.end as int)
    }

    /// The stretch of `owner` that the span covers, where it is readable.
    pub fn resolve<'a>(&self, owner: &'a str) -> (word: Option<&'a str>)
        ensures
            word is Some <==> self.is_readable(owner.spec_bytes()),
            word is Some ==> word->Some_0.spec_bytes() == self.bytes_of(owner.spec_bytes()),
    {
        broadcast use vstd::utf8::encode_utf8_valid_utf8;

        let ghost text = owner.spec_bytes();
        if self.start > self.end || self.end > owner.as_bytes().len() {
            return None;
        }
        if !owner.is_char_boundary(self.start) || !owner.is_char_boundary(self.end) {
            return None;
        }
        let (head, _) = owner.split_at(self.end);
        proof {
            let head_text = head.spec_bytes();
            assert(head_text == text.subrange(0, self.end as int));
            if self.start < self.end {
                vstd::utf8::is_char_boundary_iff_not_is_continuation_byte(text, self.start as int);
                vstd::utf8::is_char_boundary_iff_not_is_continuation_byte(
                    head_text,
                    self.start as int,
                );
            } else {
                vstd::utf8::is_char_boundary_start_end_of_seq(head_text);
            }
        }
        let (_, word) = head.split_at(self.start);
        proof {
            assert(word.spec_bytes() =~= self.bytes_of(text));
        }
        Some(word)
    }
}

/// The words that were found in a text, in the order in which they stand
/// there.
pub type Ast = Vec<Span>;

/// A cell of a text and the words found in it.
pub struct StringCell(UnsafeSelfCell<String, Ast>);

impl StringCell {
    /// The pair that the cell holds.
    pub closed spec fn view(&self) -> JoinedCell<String, Ast> {
        self.0@
    }

    /// Builds a cell: places `owner`, then runs `dependent_builder` on it and
    /// stores what it returns.
    pub fn new<F: FnOnce(&String) -> Ast>(owner: String, dependent_builder: F) -> (cell: Self)
        requires
            joined_size_of::<String, Ast>() != 0,
            call_requires(dependent_builder, (&owner,)),
        ensures
            cell@.owner == owner,
            call_ensures(dependent_builder, (&owner,), cell@.dependent),
    {
        StringCell(UnsafeSelfCell::new(owner, dependent_builder))
    }

    /// Builds a cell with a builder that may fail, and hands the builder's
    /// error on.
    pub fn try_new<E, F: FnOnce(&String) -> Result<Ast, E>>(
        owner: String,
        dependent_builder: F,
    ) -> (res: Result<Self, E>)
        requires
            joined_size_of::<String, Ast>() != 0,
            call_requires(dependent_builder, (&owner,)),
        ensures
            match res {
                Ok(cell) => cell@.owner == owner && call_ensures(
                    dependent_builder,
                    (&owner,),
                    Ok(cell@.dependent),
                ),
                Err(err) => call_ensures(dependent_builder, (&owner,), Err(err)),
            },
    {
        match UnsafeSelfCell::try_new(owner, dependent_builder) {
            Ok(cell) => Ok(StringCell(cell)),
            Err(err) => Err(err),
        }
    }

    /// The owner.
    pub fn borrow_owner(&self) -> (owner: &String)
        ensures
            *owner == self@.owner,
    {
        self.0.borrow_owner()
    }

    /// The dependent.
    pub fn borrow_dependent(&self) -> (dependent: &Ast)
        ensures
            *dependent == self@.dependent,
    {
        self.0.borrow_dependent()
    }
}

} // verus!
