//! The ring buffer that holds Tmux control-mode output.

use vmap::io::{Ring, SeqRead, SeqWrite};
use vstd::prelude::*;

verus! {

/// Initial capacity of the ring buffer holding Tmux control-mode output
/// (the actual one is a multiple of the page size)
pub const INITIAL_RING_CAPACITY: usize = 16_000;

/// Upper bound when growing the ring buffer to fit a single control-mode
/// line. A line larger than this means the stream is corrupt; treat it as
/// a lost connection rather than allocating unbounded memory.
pub const MAX_RING_CAPACITY: usize = 64 * 1024 * 1024;

/// The ring buffer of vmap, declared as it is.
#[verifier::external_type_specification]
#[verifier::external_body]
pub struct ExRing(vmap::io::Ring);

/// The bytes of the ring that were written and not yet consumed.
pub uninterp spec fn ring_unread(ring: Ring) -> Seq<u8>;

/// The bytes of the ring that the next writes go to, in order.
pub uninterp spec fn ring_free(ring: Ring) -> Seq<u8>;

/// Trusted: `vmap::io::Ring::new` gives an empty ring with room for at least
/// `hint` bytes. Whether the memory can be mapped is up to the machine, so
/// nothing says when it succeeds.
#[verifier::external_body]
pub(crate) fn new_ring(hint: usize) -> (r: Option<Ring>)
    requires
        0 < hint <= usize::MAX / 4,
    ensures
        r matches Some(ring) ==> ring_unread(ring) == Seq::<u8>::empty() && ring_free(ring).len()
            >= hint,
{
    Ring::new(hint).ok()
}

/// Trusted: `vmap::io::SeqRead::read_len` is the number of unread bytes.
#[verifier::external_body]
pub(crate) fn read_len(ring: &Ring) -> (n: usize)
    ensures
        n == ring_unread(*ring).len(),
{
    ring.read_len()
}

/// Trusted: `vmap::io::SeqWrite::write_len` is the number of bytes that can
/// be written.
#[verifier::external_body]
pub(crate) fn write_len(ring: &Ring) -> (n: usize)
    ensures
        n == ring_free(*ring).len(),
{
    ring.write_len()
}

/// Trusted: `vmap::io::SeqRead::as_read_slice` shows the unread bytes, at
/// most `max` of them.
#[verifier::external_body]
pub(crate) fn as_read_slice(ring: &Ring, max: usize) -> (s: &[u8])
    ensures
        s@ == (if ring_unread(*ring).len() <= max {
            ring_unread(*ring)
        } else {
            ring_unread(*ring).take(max as int)
        }),
{
    ring.as_read_slice(max)
}

/// Trusted: `vmap::io::SeqWrite::as_write_slice` lends the bytes that the
/// next writes go to, at most `max` of them. What is put there changes
/// nothing else of the ring.
#[verifier::external_body]
pub(crate) fn as_write_slice(ring: &mut Ring, max: usize) -> (s: &mut [u8])
    ensures
        s@ == (if ring_free(*old(ring)).len() <= max {
            ring_free(*old(ring))
        } else {
            ring_free(*old(ring)).take(max as int)
        }),
        ring_unread(*final(ring)) == ring_unread(*old(ring)),
        ring_free(*final(ring)) == final(s)@ + ring_free(*old(ring)).skip(s@.len() as int),
{
    ring.as_write_slice(max)
}

/// Trusted: `vmap::io::SeqWrite::feed` makes the next `len` writable bytes
/// unread ones, or all of them where there are fewer. (The ring counts the
/// bytes fed to it over its life in 64 bits.)
#[verifier::external_body]
pub(crate) fn feed(ring: &mut Ring, len: usize)
    ensures
        ({
            let n = if len <= ring_free(*old(ring)).len() {
                len as int
            } else {
                ring_free(*old(ring)).len() as int
            };
            &&& ring_unread(*final(ring)) == ring_unread(*old(ring)) + ring_free(*old(ring)).take(n)
            &&& ring_free(*final(ring)) == ring_free(*old(ring)).skip(n)
        }),
{
    ring.feed(len)
}

/// Trusted: `consume` of `std::io::BufRead` on `vmap::io::Ring` drops the
/// first `len` unread bytes, or all of them where there are fewer; they can
/// then be written over.
#[verifier::external_body]
pub(crate) fn consume(ring: &mut Ring, len: usize)
    ensures
        ({
            let n = if len <= ring_unread(*old(ring)).len() {
                len as int
            } else {
                ring_unread(*old(ring)).len() as int
            };
            &&& ring_unread(*final(ring)) == ring_unread(*old(ring)).skip(n)
            &&& ring_free(*final(ring)) == ring_free(*old(ring)) + ring_unread(*old(ring)).take(n)
        }),
{
    std::io::BufRead::consume(ring, len)
}

/// Trusted: `copy_from_slice` of std copies all of `src` over `dst`.
pub assume_specification<Item: Copy>[ <[Item]>::copy_from_slice ](dst: &mut [Item], src: &[Item])
    requires
        old(dst)@.len() == src@.len(),
    ensures
        final(dst)@ == src@,
;

// ---------------------------------------------------------------------------
// Growing
// ---------------------------------------------------------------------------

/// The capacity to ask for when a ring with `unread` bytes grows, if
/// `max_capacity` allows it: twice what is there, and no less than the
/// initial one.
pub open spec fn grown_capacity(unread: nat, max_capacity: nat) -> Option<nat> {
    let wanted = if unread * 2 >= INITIAL_RING_CAPACITY {
        unread * 2
    } else {
        INITIAL_RING_CAPACITY as nat
    };
    if wanted > max_capacity {
        None
    } else {
        Some(wanted)
    }
}

/// The capacity to ask for when a ring with `unread` bytes grows.
pub fn next_capacity(unread: usize, max_capacity: usize) -> (r: Option<usize>)
    ensures
        match r {
            Some(n) => grown_capacity(unread as nat, max_capacity as nat) == Some(n as nat),
            None => grown_capacity(unread as nat, max_capacity as nat) is None,
        },
{
    if unread > max_capacity / 2 {
        return None;
    }
    let doubled: usize = unread * 2;
    let wanted: usize = if doubled >= INITIAL_RING_CAPACITY {
        doubled
    } else {
        INITIAL_RING_CAPACITY
    };
    if wanted > max_capacity {
        None
    } else {
        Some(wanted)
    }
}

/// Moves the unread bytes to `fresh`, where there is one, and puts it in
/// place of `ring_buffer`.
pub fn move_to_ring(ring_buffer: &mut Ring, fresh: Option<Ring>) -> (r: Result<(), ()>)
    requires
        fresh matches Some(ring) ==> ring_unread(ring).len() == 0 && ring_free(ring).len()
            >= ring_unread(*old(ring_buffer)).len(),
    ensures
        r is Ok <==> fresh is Some,
        r is Err ==> *final(ring_buffer) == *old(ring_buffer),
        r is Ok ==> ring_unread(*final(ring_buffer)) == ring_unread(*old(ring_buffer)) && ring_free(
            *final(ring_buffer),
        ) == ring_free(fresh->Some_0).skip(ring_unread(*old(ring_buffer)).len() as int),
{
    match fresh {
        None => Err(()),
        Some(mut new_ring) => {
            let unread: usize = read_len(ring_buffer);
            let from = as_read_slice(ring_buffer, unread);
            let ghost free = ring_free(new_ring);
            let to = as_write_slice(&mut new_ring, unread);
            assert(from@ == ring_unread(*ring_buffer));
            to.copy_from_slice(from);
            assert(ring_free(new_ring) =~= ring_unread(*ring_buffer) + free.skip(unread as int));
            feed(&mut new_ring, unread);
            assert(ring_unread(new_ring) =~= ring_unread(*ring_buffer));
            assert(ring_free(new_ring) =~= free.skip(unread as int));
            *ring_buffer = new_ring;
            Ok(())
        },
    }
}

/// Replaces `ring_buffer` with a larger one holding the same unread data.
/// Fails when the new size would exceed `max_capacity` or mapping fails.
pub fn grow_ring(ring_buffer: &mut Ring, max_capacity: usize) -> (r: Result<(), ()>)
    requires
        grown_capacity(ring_unread(*old(ring_buffer)).len(), max_capacity as nat) matches Some(n)
            ==> n <= usize::MAX / 4,
    ensures
        r is Err ==> *final(ring_buffer) == *old(ring_buffer),
        grown_capacity(ring_unread(*old(ring_buffer)).len(), max_capacity as nat) is None ==> r is Err,
        r is Ok ==> ring_unread(*final(ring_buffer)) == ring_unread(*old(ring_buffer))
            && ring_unread(*final(ring_buffer)).len() + ring_free(*final(ring_buffer)).len()
            >= grown_capacity(
            ring_unread(*old(ring_buffer)).len(),
            max_capacity as nat,
        )->Some_0,
{
    let unread: usize = read_len(ring_buffer);
    match next_capacity(unread, max_capacity) {
        None => Err(()),
        Some(new_capacity) => {
            let fresh = new_ring(new_capacity);
            move_to_ring(ring_buffer, fresh)
        },
    }
}

/// A ring grows to twice what it holds, and to no less than 16000 bytes, and
/// only where the maximum allows that much.
pub proof fn law_rings_grow_enough(unread: nat, max_capacity: nat)
    ensures
        grown_capacity(unread, max_capacity) matches Some(n) ==> n >= 2 * unread && n >= 16000 && n
            <= max_capacity && (n == 2 * unread || n == 16000),
        grown_capacity(unread, max_capacity) is None <==> 2 * unread > max_capacity || 16000
            > max_capacity,
{
}

} // verus!
