//! Turning buffered client key events into an acceleration bias and a
//! bounded keyboard history.

use vstd::prelude::*;
use vstd::pervasive::VecAdditionalExecFns;
use crate::model::client::{Key, KeyState};
use crate::model::comp::{Acc, KeyboardState, Player};
use crate::model::game::Id;
use crate::registry::Registry;
use std::collections::HashMap;

verus! {

broadcast use vstd::std_specs::hash::group_hash_axioms;

/// How many keyboard snapshots a player's history retains.
pub const INPUT_HISTORY_DEPTH: usize = 10;

/// Vertical acceleration set while an arrow key is held.
pub const KEY_ACC: i32 = 5;

/// The pending key events of each actor, filled by the transport between
/// ticks and drained once per input run.
pub struct InputMap {
    pub map: HashMap<Id, Vec<KeyState>>,
}

impl View for InputMap {
    type V = Map<Id, Vec<KeyState>>;

    open spec fn view(&self) -> Map<Id, Vec<KeyState>> {
        self.map@
    }
}

impl InputMap {
    pub fn new() -> (r: Self)
        ensures
            r@ == Map::<Id, Vec<KeyState>>::empty(),
    {
        InputMap { map: HashMap::new() }
    }

    /// Append one event to an actor's pending queue.
    pub fn push_event(&mut self, id: Id, ks: KeyState)
        ensures
            final(self)@.contains_key(id),
            final(self)@[id]@ == (if old(self)@.contains_key(id) {
                old(self)@[id]@.push(ks)
            } else {
                Seq::<KeyState>::empty().push(ks)
            }),
            forall|id2: Id|
                id2 != id ==> final(self)@.contains_key(id2) == old(self)@.contains_key(id2) && (
                old(self)@.contains_key(id2) ==> final(self)@[id2] == old(self)@[id2]),
    {
        let mut queue = match self.map.remove(&id) {
            Some(q) => q,
            None => Vec::new(),
        };
        queue.push(ks);
        self.map.insert(id, queue);
    }

    /// Drain an actor's pending queue, oldest first.
    pub fn take(&mut self, id: Id) -> (r: Vec<KeyState>)
        ensures
            final(self)@ == old(self)@.remove(id),
            r@ == (if old(self)@.contains_key(id) {
                old(self)@[id]@
            } else {
                Seq::<KeyState>::empty()
            }),
    {
        let r = match self.map.remove(&id) {
            Some(q) => q,
            None => Vec::new(),
        };
        proof {
            assert(self@ =~= old(self)@.remove(id));
        }
        r
    }
}

/// The keyboard snapshot after one event: the changed key overwritten,
/// the other key kept.
pub open spec fn spec_apply_key(st: KeyboardState, ks: KeyState) -> KeyboardState {
    match ks.key {
        Key::ArrowUp => KeyboardState { arrow_up: Some(ks.pressed), ..st },
        Key::ArrowDown => KeyboardState { arrow_down: Some(ks.pressed), ..st },
    }
}

/// The acceleration after one event: a pressed arrow sets the vertical
/// bias toward it, a release cancels the bias only while it still points
/// that way.
pub open spec fn spec_key_acc(a: Acc, ks: KeyState) -> Acc {
    match ks.key {
        Key::ArrowUp => if ks.pressed {
            Acc { y: (0 - KEY_ACC) as i32, ..a }
        } else if a.y < 0 {
            Acc { y: 0, ..a }
        } else {
            a
        },
        Key::ArrowDown => if ks.pressed {
            Acc { y: KEY_ACC, ..a }
        } else if a.y > 0 {
            Acc { y: 0, ..a }
        } else {
            a
        },
    }
}

/// History, last applied sequence number and acceleration after playing a
/// queue of events in arrival order.
pub open spec fn spec_play_events(
    hist: Seq<KeyboardState>,
    last: u32,
    a: Acc,
    events: Seq<KeyState>,
) -> (Seq<KeyboardState>, u32, Acc)
    decreases events.len(),
{
    if events.len() == 0 {
        (hist, last, a)
    } else {
        let ks = events[0];
        let base = if hist.len() > 0 {
            hist.last()
        } else {
            KeyboardState { arrow_up: None, arrow_down: None }
        };
        spec_play_events(hist.push(spec_apply_key(base, ks)), ks.id, spec_key_acc(a, ks), events.drop_first())
    }
}

/// Playing one more event equals playing the queue and then that event.
pub proof fn lemma_play_events_push(
    hist: Seq<KeyboardState>,
    last: u32,
    a: Acc,
    events: Seq<KeyState>,
    ks: KeyState,
)
    ensures
        spec_play_events(hist, last, a, events.push(ks)) == {
            let mid = spec_play_events(hist, last, a, events);
            let base = if mid.0.len() > 0 {
                mid.0.last()
            } else {
                KeyboardState { arrow_up: None, arrow_down: None }
            };
            (mid.0.push(spec_apply_key(base, ks)), ks.id, spec_key_acc(mid.2, ks))
        },
    decreases events.len(),
{
    if events.len() == 0 {
        assert(events.push(ks)[0] == ks);
        assert(events.push(ks).drop_first() =~= events);
        assert(spec_play_events(hist, last, a, events) == (hist, last, a));
        let base = if hist.len() > 0 {
            hist.last()
        } else {
            KeyboardState { arrow_up: None, arrow_down: None }
        };
        assert(spec_play_events(hist.push(spec_apply_key(base, ks)), ks.id, spec_key_acc(a, ks), events) == (
            hist.push(spec_apply_key(base, ks)),
            ks.id,
            spec_key_acc(a, ks),
        ));
    } else {
        let base = if hist.len() > 0 {
            hist.last()
        } else {
            KeyboardState { arrow_up: None, arrow_down: None }
        };
        assert(events.push(ks)[0] == events[0]);
        assert(events.push(ks).drop_first() =~= events.drop_first().push(ks));
        let h1 = hist.push(spec_apply_key(base, events[0]));
        lemma_play_events_push(h1, events[0].id, spec_key_acc(a, events[0]), events.drop_first(), ks);
        assert(spec_play_events(hist, last, a, events.push(ks)) == spec_play_events(
            h1,
            events[0].id,
            spec_key_acc(a, events[0]),
            events.push(ks).drop_first(),
        ));
        assert(spec_play_events(hist, last, a, events) == spec_play_events(
            h1,
            events[0].id,
            spec_key_acc(a, events[0]),
            events.drop_first(),
        ));
    }
}

/// The input history bounded to its depth: the newest snapshots win.
pub open spec fn spec_trim_history(inputs: Seq<KeyboardState>) -> Seq<KeyboardState> {
    if inputs.len() > INPUT_HISTORY_DEPTH {
        inputs.skip(inputs.len() - INPUT_HISTORY_DEPTH as int)
    } else {
        inputs
    }
}

/// Record one event in the player's input history: merge it into the
/// latest snapshot (or an empty one) and remember its sequence number.
pub fn update_player_inputs(player: &mut Player, ks: &KeyState)
    ensures
        final(player).inputs@ == old(player).inputs@.push(
            spec_apply_key(
                if old(player).inputs@.len() > 0 {
                    old(player).inputs@.last()
                } else {
                    KeyboardState { arrow_up: None, arrow_down: None }
                },
                *ks,
            ),
        ),
        final(player).last_input == ks.id,
        final(player).send_channel == old(player).send_channel,
        final(player).pingpongs == old(player).pingpongs,
        final(player).delay == old(player).delay,
{
    let base = if player.inputs.len() > 0 {
        player.inputs[player.inputs.len() - 1]
    } else {
        KeyboardState::empty()
    };
    let merged = match ks.key {
        Key::ArrowUp => KeyboardState { arrow_up: Some(ks.pressed), ..base },
        Key::ArrowDown => KeyboardState { arrow_down: Some(ks.pressed), ..base },
    };
    player.inputs.push(merged);
    player.last_input = ks.id;
}

/// Apply one event's acceleration semantics.
pub fn handle_key_state(acc: &mut Acc, ks: &KeyState)
    ensures
        *final(acc) == spec_key_acc(*old(acc), *ks),
{
    match ks.key {
        Key::ArrowUp => {
            if ks.pressed {
                acc.y = -KEY_ACC;
            } else if acc.y < 0 {
                acc.y = 0;
            }
        },
        Key::ArrowDown => {
            if ks.pressed {
                acc.y = KEY_ACC;
            } else if acc.y > 0 {
                acc.y = 0;
            }
        },
    }
}

/// Drop the oldest snapshots beyond the history depth.
fn trim_history(player: &mut Player)
    ensures
        final(player).inputs@ == spec_trim_history(old(player).inputs@),
        final(player).last_input == old(player).last_input,
        final(player).send_channel == old(player).send_channel,
        final(player).pingpongs == old(player).pingpongs,
        final(player).delay == old(player).delay,
{
    while player.inputs.len() > INPUT_HISTORY_DEPTH
        invariant
            player.inputs@.len() >= INPUT_HISTORY_DEPTH ==> spec_trim_history(player.inputs@)
                == spec_trim_history(old(player).inputs@),
            player.inputs@.len() < INPUT_HISTORY_DEPTH ==> player.inputs@ == old(player).inputs@,
            player.last_input == old(player).last_input,
            player.send_channel == old(player).send_channel,
            player.pingpongs == old(player).pingpongs,
            player.delay == old(player).delay,
        decreases player.inputs@.len(),
    {
        let ghost pre: Seq<KeyboardState> = player.inputs@;
        player.inputs.remove(0);
        proof {
            assert(player.inputs@ =~= pre.drop_first());
            assert(spec_trim_history(player.inputs@) =~= spec_trim_history(pre));
        }
    }
    proof {
        if player.inputs@.len() >= INPUT_HISTORY_DEPTH {
            assert(spec_trim_history(player.inputs@) =~= player.inputs@);
        } else {
            assert(spec_trim_history(player.inputs@) == player.inputs@);
        }
    }
}

/// The input system.
pub struct InputHandler;

impl InputHandler {
    /// For every connected player with an acceleration, drain its pending
    /// events in arrival order into its history and acceleration bias,
    /// then bound the history's depth.
    #[verifier::rlimit(100)]
    pub fn run(reg: &mut Registry, inputs: &mut InputMap)
        requires
            old(reg).wf(),
            forall|e1: int, e2: int|
                0 <= e1 < e2 < old(reg).n() && old(reg).player@[e1] is Some && old(reg).acc@[e1] is Some && (#[trigger] old(reg).actor@[e1]) is Some && old(reg).player@[e2] is Some && old(reg).acc@[e2] is Some && (#[trigger] old(reg).actor@[e2]) is Some ==> old(reg).actor@[e1]->0.id != old(reg).actor@[e2]->0.id,
        ensures
            final(reg).wf(),
            final(reg).n() == old(reg).n(),
            final(reg).alive@ == old(reg).alive@,
            final(reg).pos@ == old(reg).pos@,
            final(reg).vel@ == old(reg).vel@,
            final(reg).friction@ == old(reg).friction@,
            final(reg).bounciness@ == old(reg).bounciness@,
            final(reg).actor@ == old(reg).actor@,
            final(reg).to_spawn@ == old(reg).to_spawn@,
            final(reg).to_despawn@ == old(reg).to_despawn@,
            final(reg).ping@ == old(reg).ping@,
            final(reg).pong@ == old(reg).pong@,
            forall|e: int|
                0 <= e < old(reg).n() && !(old(reg).player@[e] is Some && old(reg).acc@[e] is Some
                    && (#[trigger] old(reg).actor@[e]) is Some) ==> final(reg).player@[e] == old(reg).player@[e] && final(reg).acc@[e] == old(reg).acc@[e],
            forall|e: int|
                0 <= e < old(reg).n() && old(reg).player@[e] is Some && old(reg).acc@[e] is Some
                    && (#[trigger] old(reg).actor@[e]) is Some ==> {
                    let events = if old(inputs)@.contains_key(old(reg).actor@[e]->0.id) {
                        old(inputs)@[old(reg).actor@[e]->0.id]@
                    } else {
                        Seq::<KeyState>::empty()
                    };
                    let played = spec_play_events(
                        old(reg).player@[e]->0.inputs@,
                        old(reg).player@[e]->0.last_input,
                        old(reg).acc@[e]->0,
                        events,
                    );
                    &&& final(reg).player@[e] is Some
                    &&& final(reg).player@[e]->0.inputs@ == spec_trim_history(played.0)
                    &&& final(reg).player@[e]->0.last_input == played.1
                    &&& final(reg).player@[e]->0.send_channel == old(reg).player@[e]->0.send_channel
                    &&& final(reg).player@[e]->0.pingpongs == old(reg).player@[e]->0.pingpongs
                    &&& final(reg).player@[e]->0.delay == old(reg).player@[e]->0.delay
                    &&& final(reg).acc@[e] == Some(played.2)
                },
            forall|id: Id|
                (exists|w: int|
                    0 <= w < old(reg).n() && old(reg).player@[w] is Some && old(
                        reg,
                    ).acc@[w] is Some && (#[trigger] old(reg).actor@[w]) is Some && old(
                        reg,
                    ).actor@[w]->0.id == id) ==> !(#[trigger] final(inputs)@.contains_key(id)),
            forall|id: Id|
                !(exists|w: int|
                    0 <= w < old(reg).n() && old(reg).player@[w] is Some && old(
                        reg,
                    ).acc@[w] is Some && (#[trigger] old(reg).actor@[w]) is Some && old(
                        reg,
                    ).actor@[w]->0.id == id) ==> (#[trigger] final(inputs)@.contains_key(id))
                    == old(inputs)@.contains_key(id),
            forall|id: Id|
                !(exists|w: int|
                    0 <= w < old(reg).n() && old(reg).player@[w] is Some && old(
                        reg,
                    ).acc@[w] is Some && (#[trigger] old(reg).actor@[w]) is Some && old(
                        reg,
                    ).actor@[w]->0.id == id) && old(inputs)@.contains_key(id) ==> (
                #[trigger] final(inputs)@[id]) == old(inputs)@[id],
    {
        let n = reg.alive.len();
        let mut e: usize = 0;
        while e < n
            invariant
                reg.wf(),
                n == old(reg).n(),
                reg.n() == n,
                0 <= e <= n,
                reg.alive@ == old(reg).alive@,
                reg.pos@ == old(reg).pos@,
                reg.vel@ == old(reg).vel@,
                reg.friction@ == old(reg).friction@,
                reg.bounciness@ == old(reg).bounciness@,
                reg.actor@ == old(reg).actor@,
                reg.to_spawn@ == old(reg).to_spawn@,
                reg.to_despawn@ == old(reg).to_despawn@,
                reg.ping@ == old(reg).ping@,
                reg.pong@ == old(reg).pong@,
                forall|w: int|
                    0 <= w < n && !(old(reg).player@[w] is Some && old(reg).acc@[w] is Some && (
                    #[trigger] old(reg).actor@[w]) is Some) ==> reg.player@[w] == old(reg).player@[w] && reg.acc@[w] == old(reg).acc@[w],
                forall|w: int| e <= w < n ==> reg.player@[w] == old(reg).player@[w],
                forall|w: int| e <= w < n ==> reg.acc@[w] == old(reg).acc@[w],
                forall|e1: int, e2: int|
                    0 <= e1 < e2 < n && old(reg).player@[e1] is Some && old(reg).acc@[e1] is Some && (#[trigger] old(reg).actor@[e1]) is Some && old(reg).player@[e2] is Some && old(reg).acc@[e2] is Some && (#[trigger] old(reg).actor@[e2]) is Some ==> old(reg).actor@[e1]->0.id != old(reg).actor@[e2]->0.id,
                forall|w: int|
                    0 <= w < e && old(reg).player@[w] is Some && old(reg).acc@[w] is Some && (
                    #[trigger] old(reg).actor@[w]) is Some ==> {
                        let events = if old(inputs)@.contains_key(old(reg).actor@[w]->0.id) {
                            old(inputs)@[old(reg).actor@[w]->0.id]@
                        } else {
                            Seq::<KeyState>::empty()
                        };
                        let played = spec_play_events(
                            old(reg).player@[w]->0.inputs@,
                            old(reg).player@[w]->0.last_input,
                            old(reg).acc@[w]->0,
                            events,
                        );
                        &&& reg.player@[w] is Some
                        &&& reg.player@[w]->0.inputs@ == spec_trim_history(played.0)
                        &&& reg.player@[w]->0.last_input == played.1
                        &&& reg.player@[w]->0.send_channel == old(reg).player@[w]->0.send_channel
                        &&& reg.player@[w]->0.pingpongs == old(reg).player@[w]->0.pingpongs
                        &&& reg.player@[w]->0.delay == old(reg).player@[w]->0.delay
                        &&& reg.acc@[w] == Some(played.2)
                    },
                forall|id: Id|
                    (exists|w: int|
                        0 <= w < e && old(reg).player@[w] is Some && old(reg).acc@[w] is Some && (
                        #[trigger] old(reg).actor@[w]) is Some && old(reg).actor@[w]->0.id == id)
                        ==> !(#[trigger] inputs@.contains_key(id)),
                forall|id: Id|
                    !(exists|w: int|
                        0 <= w < e && old(reg).player@[w] is Some && old(reg).acc@[w] is Some && (
                        #[trigger] old(reg).actor@[w]) is Some && old(reg).actor@[w]->0.id == id)
                        ==> (#[trigger] inputs@.contains_key(id)) == old(inputs)@.contains_key(id),
                forall|id: Id|
                    !(exists|w: int|
                        0 <= w < e && old(reg).player@[w] is Some && old(reg).acc@[w] is Some && (
                        #[trigger] old(reg).actor@[w]) is Some && old(reg).actor@[w]->0.id == id)
                        && old(inputs)@.contains_key(id) ==> (#[trigger] inputs@[id]) == old(
                        inputs,
                    )@[id],
            decreases n - e,
        {
            let ghost m_pre: Map<Id, Vec<KeyState>> = inputs@;
            let eligible = reg.player[e].is_some() && reg.acc[e].is_some()
                && reg.actor[e].is_some();
            let actor_opt = reg.actor[e];
            if eligible {
                let actor = actor_opt.unwrap();
                let mut slot: Option<Player> = None;
                reg.player.set_and_swap(e, &mut slot);
                let mut player = slot.unwrap();
                let mut acc = reg.acc[e].unwrap();
                let events = inputs.take(actor.id);
                let ghost h0: Seq<KeyboardState> = player.inputs@;
                let ghost l0: u32 = player.last_input;
                let ghost a0: Acc = acc;
                let mut k: usize = 0;
                while k < events.len()
                    invariant
                        0 <= k <= events@.len(),
                        (player.inputs@, player.last_input, acc) == spec_play_events(
                            h0,
                            l0,
                            a0,
                            events@.subrange(0, k as int),
                        ),
                        player.send_channel == old(reg).player@[e as int]->0.send_channel,
                        player.pingpongs == old(reg).player@[e as int]->0.pingpongs,
                        player.delay == old(reg).player@[e as int]->0.delay,
                    decreases events@.len() - k,
                {
                    let ks = events[k];
                    proof {
                        assert(events@.subrange(0, k as int + 1) =~= events@.subrange(
                            0,
                            k as int,
                        ).push(events@[k as int]));
                        lemma_play_events_push(h0, l0, a0, events@.subrange(0, k as int), ks);
                    }
                    update_player_inputs(&mut player, &ks);
                    handle_key_state(&mut acc, &ks);
                    k = k + 1;
                }
                proof {
                    assert(events@.subrange(0, events@.len() as int) =~= events@);
                }
                trim_history(&mut player);
                reg.player.set(e, Some(player));
                reg.acc.set(e, Some(acc));
            }
            let ghost claimed: bool = eligible;
            e = e + 1;
            proof {
                assert forall|id: Id|
                    (exists|w: int|
                        0 <= w < e && old(reg).player@[w] is Some && old(reg).acc@[w] is Some && (
                        #[trigger] old(reg).actor@[w]) is Some && old(reg).actor@[w]->0.id == id)
                        implies !(#[trigger] inputs@.contains_key(id)) by {
                    let w = choose|w: int|
                        0 <= w < e && old(reg).player@[w] is Some && old(reg).acc@[w] is Some
                            && old(reg).actor@[w] is Some && old(reg).actor@[w]->0.id == id;
                    if w < e - 1 {
                    } else {
                        assert(claimed);
                        assert(id == actor_opt->0.id);
                    }
                }
                assert forall|id: Id|
                    !(exists|w: int|
                        0 <= w < e && old(reg).player@[w] is Some && old(reg).acc@[w] is Some && (
                        #[trigger] old(reg).actor@[w]) is Some && old(reg).actor@[w]->0.id == id)
                        implies (#[trigger] inputs@.contains_key(id)) == old(
                        inputs,
                    )@.contains_key(id) by {
                    assert(m_pre.contains_key(id) == m_pre.contains_key(id));
                    if claimed {
                        assert(id != actor_opt->0.id);
                    }
                }
                assert forall|id: Id|
                    !(exists|w: int|
                        0 <= w < e && old(reg).player@[w] is Some && old(reg).acc@[w] is Some && (
                        #[trigger] old(reg).actor@[w]) is Some && old(reg).actor@[w]->0.id == id)
                        && old(inputs)@.contains_key(id) implies (#[trigger] inputs@[id]) == old(
                    inputs,
                )@[id] by {
                    assert(m_pre.contains_key(id) == m_pre.contains_key(id));
                    assert(m_pre.contains_key(id));
                    if claimed {
                        assert(id != actor_opt->0.id);
                    }
                }
            }
        }
    }
}

} // verus!
