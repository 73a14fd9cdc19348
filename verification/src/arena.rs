//! An arena that keeps copies of source text for as long as it lives.
use vstd::prelude::*;
use vstd::string::*;

verus! {

/// Declares the type `bumpalo::Bump`, the bump allocator, of which nothing
/// is known here.
#[verifier::external_type_specification]
#[verifier::external_body]
pub struct ExBump<const MIN_ALIGN: usize>(bumpalo::Bump<MIN_ALIGN>);

/// Declares the type `bumpalo::AllocErr`, the error of an allocation that
/// failed.
#[verifier::external_type_specification]
#[verifier::external_body]
pub struct ExAllocErr(bumpalo::AllocErr);

/// An arena to which source text is added and from which nothing is taken
/// away.
///
/// It owns a copy of every string it was given, for as long as it lives, so
/// a document whose spans point into such copies must not outlive it.
pub struct DocumentSourceRef {
    bump: bumpalo::Bump,
}

impl DocumentSourceRef {
    /// Calls `bumpalo::Bump::new`, which makes an empty arena.
    #[verifier::external_body]
    #[must_use]
    pub fn new() -> (r: Self) {
        DocumentSourceRef { bump: bumpalo::Bump::new() }
    }

    /// Calls `bumpalo::Bump::alloc_str`, which copies the text into the
    /// arena and returns the copy. Assumed: the copy holds the characters
    /// of the text. The call does not return where memory is exhausted;
    /// `try_alloc` returns an error instead.
    #[verifier::external_body]
    pub fn alloc_str<'a>(&'a self, source: &str) -> (r: &'a str)
        ensures
            r@ == source@,
    {
        self.bump.alloc_str(source)
    }

    /// Calls `bumpalo::Bump::try_alloc_str`, which copies the text into
    /// the arena and returns the copy, or an error where memory could not
    /// be had. Assumed: a copy that is returned holds the characters of the
    /// text.
    #[verifier::external_body]
    pub fn try_alloc<'a>(&'a self, source: &str) -> (r: Result<&'a str, bumpalo::AllocErr>)
        ensures
            r matches Ok(copy) ==> copy@ == source@,
    {
        self.bump.try_alloc_str(source).map(|s| &*s)
    }

    /// Calls `bumpalo::Bump::allocated_bytes`, the number of bytes that
    /// the arena has taken for its strings, padding included. Nothing is
    /// assumed of the number.
    #[verifier::external_body]
    pub fn size(&self) -> (r: usize) {
        self.bump.allocated_bytes()
    }
}

impl Default for DocumentSourceRef {
    fn default() -> (r: Self) {
        Self::new()
    }
}

} // verus!
