//! What holds of the coyote time: landing stops the stopwatch, leaving the
//! ground without a jump starts it, and a jump is granted for as long as it
//! shows no more than the coyote time.

use vstd::prelude::*;
use crate::collisions::{coyote_after_events, coyote_step, CollisionEvent, CollisionSide};
use crate::fixed::fx_add;
use crate::input::{jump_granted, PlayerInput};
use crate::stopwatch::StopwatchModel;

verus! {

/// The time that a stopwatch counts from zero over ticks of the given
/// lengths.
pub open spec fn time_counted(deltas: Seq<int>) -> int
    decreases deltas.len(),
{
    if deltas.len() == 0 {
        0
    } else {
        fx_add(time_counted(deltas.drop_last()), deltas.last())
    }
}

/// The coyote stopwatch of an entity after ticks of the given lengths in
/// which no event came.
pub open spec fn coyote_run(watch: StopwatchModel, jumps: u32, entity: u64, deltas: Seq<int>)
    -> StopwatchModel
    decreases deltas.len(),
{
    if deltas.len() == 0 {
        watch
    } else {
        coyote_step(
            coyote_run(watch, jumps, entity, deltas.drop_last()),
            jumps,
            Seq::empty(),
            entity,
            deltas.last(),
        )
    }
}

/// The coyote stopwatch of an entity that landed, after the tick in which it
/// leaves the ground without having jumped and the ticks that follow in the
/// air: `airborne` holds the lengths of these ticks, the first of them that
/// of the tick in which it left.
pub open spec fn coyote_since_leaving(
    landed: StopwatchModel,
    entity: u64,
    airborne: Seq<int>,
) -> StopwatchModel {
    coyote_run(
        coyote_step(
            landed,
            0,
            seq![CollisionEvent { entity, side: CollisionSide::Below(false) }],
            entity,
            airborne[0],
        ),
        0,
        entity,
        airborne.skip(1),
    )
}

/// Landing stops the coyote stopwatch at zero, whatever it showed and however
/// long the tick.
pub proof fn lemma_landing_stops_coyote(
    watch: StopwatchModel,
    jumps: u32,
    entity: u64,
    delta: int,
)
    ensures
        coyote_step(
            watch,
            jumps,
            seq![CollisionEvent { entity, side: CollisionSide::Below(true) }],
            entity,
            delta,
        ) == (StopwatchModel { elapsed: 0, paused: true }),
{
    let events = seq![CollisionEvent { entity, side: CollisionSide::Below(true) }];
    assert(events.drop_last() =~= Seq::<CollisionEvent>::empty());
    assert(coyote_after_events(watch, jumps, events.drop_last(), entity) == watch);
}

/// The coyote window. An entity that landed and then leaves the ground
/// without having jumped is granted the jump that its player asks for if the
/// time counted since it left is no more than the coyote time, and only then.
pub proof fn lemma_coyote_window(
    entity: u64,
    airborne: Seq<int>,
    input: PlayerInput,
    coyote_time: int,
)
    requires
        airborne.len() > 0,
        input.jump,
    ensures
        ({
            let landed = StopwatchModel { elapsed: 0, paused: true };
            let now = coyote_since_leaving(landed, entity, airborne);
            &&& now == (StopwatchModel { elapsed: time_counted(airborne), paused: false })
            &&& jump_granted(input, false, now.elapsed, coyote_time, 0) <==> time_counted(airborne)
                <= coyote_time
        }),
    decreases airborne.len(),
{
    let landed = StopwatchModel { elapsed: 0, paused: true };
    let leaving = seq![CollisionEvent { entity, side: CollisionSide::Below(false) }];
    assert(leaving.drop_last() =~= Seq::<CollisionEvent>::empty());
    assert(coyote_after_events(landed, 0, leaving.drop_last(), entity) == landed);
    if airborne.len() == 1 {
        assert(airborne.drop_last() =~= Seq::<int>::empty());
        assert(airborne.skip(1) =~= Seq::<int>::empty());
        assert(time_counted(airborne.drop_last()) == 0);
    } else {
        let front = airborne.drop_last();
        lemma_coyote_window(entity, front, input, coyote_time);
        assert(airborne.skip(1).drop_last() =~= front.skip(1));
        assert(airborne.skip(1).last() == airborne.last());
        assert(front[0] == airborne[0]);
        assert(coyote_after_events(
            coyote_since_leaving(landed, entity, front),
            0,
            Seq::empty(),
            entity,
        ) == coyote_since_leaving(landed, entity, front));
    }
}

/// An entity that has jumped since it last landed is granted no further jump,
/// on the ground or in the air.
pub proof fn lemma_single_jump(
    input: PlayerInput,
    below: bool,
    elapsed: int,
    coyote_time: int,
    jumps: u32,
)
    requires
        jumps != 0,
    ensures
        !jump_granted(input, below, elapsed, coyote_time, jumps),
{
}

} // verus!
