//! How a heap of WebAssembly pages grows: in large chunks, since every growth
//! costs a call into the kernel, whatever its size.

use vstd::prelude::*;

verus! {

pub const PAGE: usize = 64 * 1024;

pub const CHUNK: usize = 64 * 1024 * 1024;

/// The answer that tells that memory has not grown.
pub const REFUSED: usize = usize::MAX;

/// A growth to ask for.
#[derive(Clone, Copy, Debug, PartialEq, Eq, Structural)]
pub struct Growth {
    /// Number of bytes that are needed.
    pub size: usize,
    /// Number of pages to ask for.
    pub pages: usize,
    /// Whether a larger growth was refused before.
    pub settled: bool,
}

/// What follows from the answer to a growth.
#[derive(Clone, Copy, Debug, PartialEq, Eq, Structural)]
pub enum Grown {
    /// Ask for this instead.
    Again(Growth),
    /// There is no memory left.
    Failed,
    /// These bytes are new.
    Memory { start: usize, bytes: usize },
}

/// Number of pages to ask for at first: at least a chunk.
pub open spec fn first_pages(size: nat) -> nat {
    if size < CHUNK {
        (CHUNK / PAGE) as nat
    } else {
        size / PAGE as nat
    }
}

/// The source of heap memory. It only ever grows: nothing is moved, and
/// nothing is given back.
pub struct Chunky;

impl Chunky {
    /// The growth to ask for where `size` bytes are needed.
    pub fn grow(&self, size: usize) -> (growth: Growth)
        ensures
            growth == (Growth {
                size,
                pages: first_pages(size as nat) as usize,
                settled: false,
            }),
    {
        let bytes: usize = if size < CHUNK {
            CHUNK
        } else {
            size
        };
        Growth { size, pages: bytes / PAGE, settled: false }
    }

    pub fn remap(&self) -> (start: Option<usize>)
        ensures
            start is None,
    {
        None
    }

    pub fn free_part(&self) -> (done: bool)
        ensures
            !done,
    {
        false
    }

    pub fn free(&self) -> (done: bool)
        ensures
            !done,
    {
        false
    }

    pub fn can_release_part(&self) -> (can: bool)
        ensures
            !can,
    {
        false
    }

    /// New pages are zero.
    pub fn allocates_zeros(&self) -> (zeros: bool)
        ensures
            zeros,
    {
        true
    }

    pub fn page_size(&self) -> (bytes: usize)
        ensures
            bytes == PAGE,
    {
        PAGE
    }
}

/// What follows where memory had `previous` pages before the growth, or the
/// growth was refused. Near the limit, what was needed is asked for.
pub open spec fn outcome(growth: Growth, previous: usize) -> Grown {
    if previous != REFUSED {
        Grown::Memory {
            start: (previous * PAGE) as usize,
            bytes: (growth.pages * PAGE) as usize,
        }
    } else if growth.size < CHUNK && !growth.settled {
        Grown::Again(Growth { size: growth.size, pages: growth.size / PAGE, settled: true })
    } else {
        Grown::Failed
    }
}

impl Growth {
    /// What follows from the answer: the number of pages that there were
    /// before, or [`REFUSED`].
    pub fn answer(self, previous: usize) -> (grown: Grown)
        requires
            previous != REFUSED ==> previous * PAGE <= usize::MAX,
            self.pages * PAGE <= usize::MAX,
        ensures
            grown == outcome(self, previous),
    {
        if previous == REFUSED && self.size < CHUNK && !self.settled {
            return Grown::Again(
                Growth { size: self.size, pages: self.size / PAGE, settled: true },
            );
        }
        if previous == REFUSED {
            return Grown::Failed;
        }
        Grown::Memory { start: previous * PAGE, bytes: self.pages * PAGE }
    }
}

/// A growth is one that [`Chunky::grow`] asks for, or what follows a refusal.
pub open spec fn is_asked(growth: Growth) -> bool {
    if growth.settled {
        growth.size < CHUNK && growth.pages == growth.size / PAGE
    } else {
        growth.pages == first_pages(growth.size as nat)
    }
}

/// What is asked for can be addressed.
pub proof fn law_growths_fit(growth: Growth)
    requires
        is_asked(growth),
    ensures
        growth.pages * PAGE <= usize::MAX,
{
    let chunk: usize = CHUNK;
    assert(chunk == 1024 * PAGE);
}

/// Where whole pages are needed, growing gives at least as many bytes, in
/// whole pages; and a whole chunk of them unless that much was refused.
pub proof fn law_memory_suffices(growth: Growth, previous: usize)
    requires
        is_asked(growth),
        growth.size % PAGE == 0,
        previous != REFUSED ==> previous * PAGE <= usize::MAX,
    ensures
        outcome(growth, previous) matches Grown::Memory { start, bytes } ==> {
            &&& bytes >= growth.size
            &&& bytes % PAGE == 0
            &&& start % PAGE == 0
            &&& !growth.settled ==> bytes >= CHUNK
        },
        outcome(growth, previous) matches Grown::Again(next) ==> is_asked(next) && next.settled
            && next.size == growth.size,
{
    assert((previous * PAGE) % (PAGE as int) == 0) by (nonlinear_arith)
        requires
            PAGE == 65536,
    ;
    assert((growth.pages * PAGE) % (PAGE as int) == 0) by (nonlinear_arith)
        requires
            PAGE == 65536,
    ;
}

/// Growing asks at most twice.
pub proof fn law_growing_ends(growth: Growth, first: usize, second: usize)
    ensures
        outcome(growth, first) matches Grown::Again(next) ==> !(outcome(next, second) is Again),
{
}

/// The first growth asks for as many whole pages of 64 KiB as fit into what is
/// needed, but for no less than 64 MiB.
pub proof fn law_first_growths_are_whole_pages(size: nat)
    ensures
        size < 67_108_864 ==> first_pages(size) == 1024,
        size >= 67_108_864 ==> first_pages(size) * 65_536 <= size < (first_pages(size) + 1)
            * 65_536,
{
}

/// A growth that was granted gives its pages behind those that there were. One
/// that was refused is asked for again once, as many whole pages as fit into
/// what is needed, where it was raised to a chunk; else there is no memory.
pub proof fn law_answers_decide(growth: Growth, previous: usize)
    requires
        previous != usize::MAX ==> previous * 65_536 <= usize::MAX,
        growth.pages * 65_536 <= usize::MAX,
    ensures
        match outcome(growth, previous) {
            Grown::Memory { start, bytes } => {
                &&& previous != usize::MAX
                &&& start == previous * 65_536
                &&& bytes == growth.pages * 65_536
            },
            Grown::Again(next) => {
                &&& previous == usize::MAX && growth.size < 67_108_864 && !growth.settled
                &&& next.size == growth.size
                &&& next.settled
                &&& next.pages * 65_536 <= growth.size < (next.pages + 1) * 65_536
            },
            Grown::Failed => previous == usize::MAX && (growth.size >= 67_108_864
                || growth.settled),
        },
{
}

} // verus!
