//! Navigation histories of bounded depth.
use vstd::prelude::*;

verus! {

/// How many addresses a history holds at most.
pub const HISTORY_CAP: usize = 64;

/// `s` with `addr` at its end; a full history loses its oldest address.
pub open spec fn remembered(s: Seq<usize>, addr: usize) -> Seq<usize> {
    if s.len() >= HISTORY_CAP {
        s.subrange(1, s.len() as int).push(addr)
    } else {
        s.push(addr)
    }
}

/// Puts an address at the end of a history.
pub fn remember(history: &mut Vec<usize>, addr: usize)
    ensures
        final(history)@ == remembered(old(history)@, addr),
{
    if history.len() >= HISTORY_CAP {
        history.remove(0);
        assert(history@ =~= old(history)@.subrange(1, old(history)@.len() as int));
    }
    history.push(addr);
}

/// A history that is within its bound stays within it.
pub proof fn history_stays_bounded(s: Seq<usize>, addr: usize)
    requires
        s.len() <= HISTORY_CAP,
    ensures
        remembered(s, addr).len() <= HISTORY_CAP,
        remembered(s, addr).last() == addr,
{
}

} // verus!
