//! Reply bodies read chunk by chunk under a byte limit.

use vstd::prelude::*;

verus! {

/// Whether a declared length is within the limit (no length passes).
pub open spec fn declared_within(length: Option<u64>, limit: usize) -> bool {
    !(length matches Some(n) && n > limit)
}

pub fn declared_length_within(length: Option<u64>, limit: usize) -> (within: bool)
    ensures
        within == declared_within(length, limit),
{
    match length {
        Some(n) => n <= limit as u64,
        None => true,
    }
}

/// Appends the whole chunk when the body stays within the limit; otherwise
/// leaves the body as it was and reports `false`.
pub fn append_within(body: &mut Vec<u8>, chunk: &[u8], limit: usize) -> (appended: bool)
    ensures
        appended == (old(body)@.len() + chunk@.len() <= limit),
        appended ==> final(body)@ == old(body)@ + chunk@,
        !appended ==> final(body)@ == old(body)@,
{
    if chunk.len() > limit || body.len() > limit - chunk.len() {
        return false;
    }
    append_prefix(body, chunk, chunk.len());
    true
}

/// Appends as much of the chunk as fits under the limit; reports whether
/// the body is then full.
pub fn append_truncated(body: &mut Vec<u8>, chunk: &[u8], limit: usize) -> (full: bool)
    requires
        old(body)@.len() <= limit,
    ensures
        final(body)@ == old(body)@ + chunk@.take(
            if chunk@.len() <= limit - old(body)@.len() { chunk@.len() as int } else { limit - old(body)@.len() },
        ),
        full == (final(body)@.len() == limit),
{
    let room = limit - body.len();
    let count = if chunk.len() <= room { chunk.len() } else { room };
    append_prefix(body, chunk, count);
    body.len() == limit
}

fn append_prefix(body: &mut Vec<u8>, chunk: &[u8], count: usize)
    requires
        count <= chunk@.len(),
    ensures
        final(body)@ == old(body)@ + chunk@.take(count as int),
{
    let ghost start = body@;
    let mut i: usize = 0;
    while i < count
        invariant
            i <= count <= chunk@.len(),
            body@ == start + chunk@.take(i as int),
        decreases count - i,
    {
        body.push(chunk[i]);
        assert(chunk@.take(i + 1) =~= chunk@.take(i as int).push(chunk@[i as int]));
        i += 1;
    }
}

} // verus!
