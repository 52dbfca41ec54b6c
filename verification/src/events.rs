//! What one fixed simulation step does with the teleports it produced:
//! they are taken out of the step's events before the host sees them, and
//! only the last one places the player (two destinations in one step are
//! two positions for one player, and the later wins).

use vstd::prelude::*;

verus! {

/// One event a simulation step queued: a teleport with its destination, or
/// anything else.
#[derive(Debug, Clone, Copy, PartialEq, Eq)]
pub enum StepEvent<T, O> {
    /// The player is to be moved to this destination.
    Teleport(T),
    /// Any other event, passed on to the host.
    Other(O),
}

/// The events of `s` that are not teleports, in order.
pub open spec fn non_teleports<T, O>(s: Seq<StepEvent<T, O>>) -> Seq<StepEvent<T, O>>
    decreases s.len(),
{
    if s.len() == 0 {
        Seq::empty()
    } else if s.last() is Other {
        non_teleports(s.drop_last()).push(s.last())
    } else {
        non_teleports(s.drop_last())
    }
}

/// The destination of the last teleport in `s`, if any.
pub open spec fn last_teleport<T, O>(s: Seq<StepEvent<T, O>>) -> Option<T>
    decreases s.len(),
{
    if s.len() == 0 {
        None
    } else {
        match s.last() {
            StepEvent::Teleport(t) => Some(t),
            StepEvent::Other(_) => last_teleport(s.drop_last()),
        }
    }
}

/// Where the events at or after `from` begin in a queue of `len` events:
/// `from`, or the end of the queue when `from` lies past it.
pub open spec fn queue_start(from: int, len: int) -> int {
    if from <= len {
        from
    } else {
        len
    }
}

/// Takes every teleport out of the events queued at or after `from`,
/// keeping every other event in order, and returns the last teleport's
/// destination: the one that places the player. A `from` past the end of
/// the queue takes nothing.
pub fn take_teleports<T, O>(events: &mut Vec<StepEvent<T, O>>, from: usize) -> (destination:
    Option<T>)
    ensures
        ({
            let start = queue_start(from as int, old(events)@.len() as int);
            &&& final(events)@ == old(events)@.take(start) + non_teleports(old(events)@.skip(start))
            &&& destination == last_teleport(old(events)@.skip(start))
        }),
{
    let start = if from <= events.len() {
        from
    } else {
        events.len()
    };
    let ghost tail0 = old(events)@.skip(start as int);
    let mut tail = events.split_off(start);
    assert(tail@ =~= tail0);
    let ghost head = events@;
    let mut destination: Option<T> = None;
    let ghost mut k: int = 0;
    while tail.len() > 0
        invariant
            0 <= k <= tail0.len(),
            tail@ == tail0.skip(k),
            events@ == head + non_teleports(tail0.take(k)),
            destination == last_teleport(tail0.take(k)),
        decreases tail@.len(),
    {
        let event = tail.remove(0);
        proof {
            assert(event == tail0[k]);
            assert(tail0.take(k + 1).drop_last() =~= tail0.take(k));
            assert(tail0.take(k + 1).last() == tail0[k]);
            assert(tail@ =~= tail0.skip(k + 1));
            assert(non_teleports(tail0.take(k + 1)) == if tail0[k] is Other {
                non_teleports(tail0.take(k)).push(tail0[k])
            } else {
                non_teleports(tail0.take(k))
            });
        }
        let ghost before = events@;
        match event {
            StepEvent::Teleport(t) => {
                destination = Some(t);
            },
            StepEvent::Other(o) => {
                events.push(StepEvent::Other(o));
                assert(events@ =~= head + non_teleports(tail0.take(k)).push(tail0[k]));
            },
        }
        proof {
            k = k + 1;
        }
    }
    assert(tail0.take(k) =~= tail0);
    destination
}

} // verus!
