//! The newlib system calls that need more than a soft reset: `write` to
//! UART0 and the `sbrk` bump allocator.

use vstd::prelude::*;

verus! {

/// The number of bytes that `write` hands to UART0: `nbytes` when it is not
/// negative, `None` (nothing is written) otherwise.
pub fn write_len(nbytes: i32) -> (r: Option<usize>)
    ensures
        r == (if nbytes >= 0 {
            Some(nbytes as usize)
        } else {
            None
        }),
{
    match usize::try_from(nbytes) {
        Ok(len) => Some(len),
        Err(_) => None,
    }
}

/// What `write` returns once UART0 took the bytes: `nbytes`, or 0 when
/// `nbytes` is negative and nothing was written. (Where writing to UART0
/// fails, `write` panics before it gets here.)
pub fn write(nbytes: i32) -> (r: i32)
    ensures
        r == (if nbytes >= 0 {
            nbytes
        } else {
            0
        }),
{
    match write_len(nbytes) {
        Some(_) => nbytes,
        None => 0,
    }
}

/// The heap that `sbrk` carves from: `size` bytes from the start of the heap
/// region, of which the first `allocated` are handed out.
#[derive(Clone, Copy, Debug)]
pub struct Heap {
    pub allocated: usize,
    pub size: usize,
}

impl Heap {
    /// A heap of `size` bytes with nothing handed out.
    pub fn new(size: usize) -> (h: Heap)
        ensures
            h.allocated == 0,
            h.size == size,
    {
        Heap { allocated: 0, size }
    }

    /// Nothing beyond the heap's end is handed out.
    pub open spec fn wf(self) -> bool {
        self.allocated <= self.size
    }
}

/// One `sbrk` of `nbytes`: the offset of the new block and the heap after it.
/// The request is granted when `nbytes` is not negative and the block fits
/// within the heap; otherwise the heap is left as it was.
pub open spec fn sbrk_step(heap: Heap, nbytes: i32) -> (Heap, Option<usize>) {
    if 0 <= nbytes && heap.allocated + nbytes <= heap.size {
        (Heap { allocated: (heap.allocated + nbytes) as usize, size: heap.size }, Some(heap.allocated))
    } else {
        (heap, None)
    }
}

/// Allocates `nbytes` from the heap and returns the offset of the new block
/// from the start of the heap region, or `None` (a null pointer) when
/// `nbytes` is negative or does not fit.
pub fn sbrk(heap: &mut Heap, nbytes: i32) -> (r: Option<usize>)
    ensures
        (*final(heap), r) == sbrk_step(*old(heap), nbytes),
        0 <= nbytes && old(heap).allocated + nbytes <= old(heap).size ==> r == Some(
            old(heap).allocated,
        ) && final(heap).allocated == old(heap).allocated + nbytes,
        !(0 <= nbytes && old(heap).allocated + nbytes <= old(heap).size) ==> r is None
            && final(heap).allocated == old(heap).allocated,
        final(heap).size == old(heap).size,
{
    if let Ok(nbytes) = usize::try_from(nbytes) {
        let allocated = heap.allocated;
        if let Some(new_allocated) = allocated.checked_add(nbytes) {
            if new_allocated <= heap.size {
                heap.allocated = new_allocated;
                return Some(allocated);
            }
        }
    }
    None
}

/// The heaps and answers of a run of `sbrk` calls.
pub open spec fn sbrk_run(heap: Heap, requests: Seq<i32>) -> (Heap, Seq<Option<usize>>)
    decreases requests.len(),
{
    if requests.len() == 0 {
        (heap, Seq::empty())
    } else {
        let (next, first) = sbrk_step(heap, requests[0]);
        let (last, rest) = sbrk_run(next, requests.drop_first());
        (last, seq![first] + rest)
    }
}

/// Over any run of `sbrk` calls on a heap whose allocation fits it, the blocks
/// handed out lie within the heap, after what was handed out before the run,
/// in the order of the calls and without overlap, and the allocation never
/// passes the heap's end.
pub proof fn lemma_sbrk_blocks_disjoint(heap: Heap, requests: Seq<i32>)
    requires
        heap.wf(),
    ensures
        ({
            let (last, answers) = sbrk_run(heap, requests);
            &&& answers.len() == requests.len()
            &&& last.wf()
            &&& last.size == heap.size
            &&& heap.allocated <= last.allocated
            &&& forall|i: int|
                0 <= i < answers.len() && #[trigger] answers[i] is Some ==> heap.allocated
                    <= answers[i]->0 && answers[i]->0 + requests[i] <= last.allocated
            &&& forall|i: int, j: int|
                0 <= i < j < answers.len() && #[trigger] answers[i] is Some
                    && #[trigger] answers[j] is Some ==> answers[i]->0 + requests[i]
                    <= answers[j]->0
        }),
    decreases requests.len(),
{
    if requests.len() > 0 {
        let (next, first) = sbrk_step(heap, requests[0]);
        let tail = requests.drop_first();
        lemma_sbrk_blocks_disjoint(next, tail);
        let (last, rest) = sbrk_run(next, tail);
        let answers = seq![first] + rest;
        assert(sbrk_run(heap, requests) == (last, answers));
        assert forall|i: int|
            0 <= i < answers.len() && #[trigger] answers[i] is Some implies heap.allocated
            <= answers[i]->0 && answers[i]->0 + requests[i] <= last.allocated by {
            if i > 0 {
                assert(answers[i] == rest[i - 1]);
                assert(requests[i] == tail[i - 1]);
            }
        }
        assert forall|i: int, j: int|
            0 <= i < j < answers.len() && #[trigger] answers[i] is Some
                && #[trigger] answers[j] is Some implies answers[i]->0 + requests[i]
            <= answers[j]->0 by {
            assert(answers[j] == rest[j - 1]);
            assert(requests[j] == tail[j - 1]);
            if i > 0 {
                assert(answers[i] == rest[i - 1]);
                assert(requests[i] == tail[i - 1]);
            }
        }
    }
}

/// A request is granted exactly when it fits: a request of `nbytes >= 0`
/// bytes that fits in what is left of the heap gets the block at the current
/// end of the allocation, which then grows by `nbytes`; a negative request,
/// or one that does not fit, is refused and leaves the heap as it was.
pub proof fn lemma_sbrk_grants_what_fits(heap: Heap, nbytes: i32)
    ensures
        0 <= nbytes && heap.allocated + nbytes <= heap.size ==> sbrk_step(heap, nbytes) == (
        Heap { allocated: (heap.allocated + nbytes) as usize, size: heap.size },
        Some(heap.allocated),
        ),
        nbytes < 0 || heap.allocated + nbytes > heap.size ==> sbrk_step(heap, nbytes) == (
        heap,
        None::<usize>,
        ),
{
}

} // verus!
