//! Latency and clock-skew estimation from ping/pong round trips.
//!
//! Each round on the ping cadence, every tagged player gets a sequenced
//! probe recorded in its `pingpongs` window.  Arriving pongs complete
//! their entries; completed samples are averaged into the player's
//! [`Delay`](crate::model::comp::Delay) estimate, and entries older than
//! the buffer window are evicted.

use vstd::prelude::*;
use vstd::pervasive::VecAdditionalExecFns;
use crate::model::client::{
    lemma_sent_views_push, spec_sent_view, spec_sent_views, Message, OpCode, PayloadView,
};
use crate::model::comp::{Delay as PlayerDelay, PingPong, Player, Pong, SendChannel};
use crate::registry::Registry;
use crate::util::{SeqId, SeqIdGen};

verus! {

broadcast use vstd::seq_lib::group_seq_properties, vstd::seq_lib::group_filter_ensures;

/// How long a ping/pong sample is retained, in milliseconds.
pub const DELAY_BUFFER_TIME: u64 = 10000;

/// One-way latency of a completed sample: half the round trip.
pub open spec fn spec_ping_of(e: PingPong) -> int {
    ((e.pong->0.server - e.sent) as int) / 2
}

/// Clock-skew estimate of a completed sample.
pub open spec fn spec_clock_of(e: PingPong) -> int {
    e.pong->0.client - spec_ping_of(e) - e.pong->0.server
}

/// Sum of the one-way latencies of the completed samples.
pub open spec fn spec_ping_sum(s: Seq<PingPong>) -> int
    decreases s.len(),
{
    if s.len() == 0 {
        0
    } else {
        spec_ping_sum(s.drop_last()) + if s.last().pong is Some {
            spec_ping_of(s.last())
        } else {
            0
        }
    }
}

/// Sum of the clock-skew estimates of the completed samples.
pub open spec fn spec_clock_sum(s: Seq<PingPong>) -> int
    decreases s.len(),
{
    if s.len() == 0 {
        0
    } else {
        spec_clock_sum(s.drop_last()) + if s.last().pong is Some {
            spec_clock_of(s.last())
        } else {
            0
        }
    }
}

/// How many samples are completed.
pub open spec fn spec_completed_count(s: Seq<PingPong>) -> int
    decreases s.len(),
{
    if s.len() == 0 {
        0
    } else {
        spec_completed_count(s.drop_last()) + if s.last().pong is Some {
            1int
        } else {
            0int
        }
    }
}

/// Whether a sample has outlived the buffer window at time `now`: its
/// pong's arrival, or its original ping when it was never answered, lies
/// further back than the window.
pub open spec fn spec_expired(e: PingPong, now: u64) -> bool {
    if e.pong is Some {
        now - e.pong->0.server > DELAY_BUFFER_TIME
    } else {
        now - e.sent > DELAY_BUFFER_TIME
    }
}

/// Rust's truncating signed division by a positive divisor.
pub open spec fn spec_div_trunc(a: int, b: int) -> int {
    if a >= 0 {
        a / b
    } else {
        -((-a) / b)
    }
}

/// Every timestamp of the window is sane at time `now`: nothing lies in
/// the future, every pong came after its ping, and the skew estimate fits
/// its type.
pub open spec fn spec_times_ok(s: Seq<PingPong>, now: u64) -> bool {
    forall|i: int|
        0 <= i < s.len() ==> {
            &&& (#[trigger] s[i]).sent <= now
            &&& s[i].pong is Some ==> s[i].sent <= s[i].pong->0.server <= now
                && s[i].pong->0.server - s[i].sent <= u32::MAX
                && s[i].pong->0.client <= i64::MAX
                && i32::MIN <= spec_clock_of(s[i]) <= i32::MAX
        }
}

/// The window with its expired samples evicted.
pub open spec fn spec_retained(pp: Seq<PingPong>, now: u64) -> Seq<PingPong> {
    pp.filter(|e: PingPong| !spec_expired(e, now))
}

/// The estimate the completed samples of a window produce; with none
/// completed, the prior estimate stands.
pub open spec fn spec_estimate(pp: Seq<PingPong>, prior: PlayerDelay) -> PlayerDelay {
    if spec_completed_count(pp) > 0 {
        PlayerDelay {
            ping: (spec_ping_sum(pp) / spec_completed_count(pp)) as usize,
            clock: spec_div_trunc(spec_clock_sum(pp), spec_completed_count(pp)) as i32,
        }
    } else {
        prior
    }
}

/// The window after folding one delivered pong: every entry carrying the
/// echoed id is completed with the pong's timestamps.
pub open spec fn spec_fold_pong(pp: Seq<PingPong>, pong: Option<Pong>) -> Seq<PingPong> {
    if pong is Some {
        Seq::new(
            pp.len(),
            |i: int|
                if pp[i].ping_id == pong->0.ping_id {
                    PingPong { pong: Some(pong->0.timestamps), ..pp[i] }
                } else {
                    pp[i]
                },
        )
    } else {
        pp
    }
}

/// The window a player enters the estimation step with: the delivered
/// pong folded in, then a fresh probe appended when the player was
/// tagged.
pub open spec fn spec_window_input(
    pp: Seq<PingPong>,
    pong: Option<Pong>,
    tagged: bool,
    pid: SeqId,
    now: u64,
) -> Seq<PingPong> {
    let folded = spec_fold_pong(pp, pong);
    if tagged {
        folded.push(PingPong { ping_id: pid, sent: now, pong: None })
    } else {
        folded
    }
}

/// How many slots below `upto` hold a ping-tagged player.
pub open spec fn spec_tagged_before(reg: Registry, upto: int) -> int
    decreases upto,
{
    if upto <= 0 {
        0
    } else {
        spec_tagged_before(reg, upto - 1) + (if reg.player@[upto - 1] is Some && reg.ping@[upto
            - 1] {
            1int
        } else {
            0int
        })
    }
}

/// The probe id the tagged player at slot `e` draws from the generator.
pub open spec fn spec_probe_id(reg: Registry, base: SeqId, e: int) -> SeqId {
    (base + spec_tagged_before(reg, e) + 1) as SeqId
}

/// The probes one delay round emits: one per tagged player, in slot
/// order, with consecutively drawn ids.
pub open spec fn spec_probe_views(reg: Registry, base: SeqId, upto: int) -> Seq<
    (SendChannel, OpCode, PayloadView),
>
    decreases upto,
{
    if upto <= 0 {
        Seq::empty()
    } else {
        let pre = spec_probe_views(reg, base, upto - 1);
        let e = upto - 1;
        if reg.player@[e] is Some && reg.ping@[e] {
            pre.push(
                (
                    reg.player@[e]->0.send_channel,
                    OpCode::Ping,
                    PayloadView::Ping { ping_id: spec_probe_id(reg, base, e) },
                ),
            )
        } else {
            pre
        }
    }
}

/// Probe ids of a window: pairwise distinct, none newer than `bound`.
pub open spec fn spec_ids_ok(pp: Seq<PingPong>, bound: SeqId) -> bool {
    &&& forall|i: int, j: int|
        0 <= i < j < pp.len() ==> (#[trigger] pp[i]).ping_id != (#[trigger] pp[j]).ping_id
    &&& forall|i: int| 0 <= i < pp.len() ==> (#[trigger] pp[i]).ping_id <= bound
}

/// A larger bound keeps a window's ids acceptable.
proof fn lemma_ids_ok_weaken(pp: Seq<PingPong>, b1: SeqId, b2: SeqId)
    requires
        spec_ids_ok(pp, b1),
        b1 <= b2,
    ensures
        spec_ids_ok(pp, b2),
{
    assert forall|i: int| 0 <= i < pp.len() implies (#[trigger] pp[i]).ping_id <= b2 by {
        assert(pp[i].ping_id <= b1);
    }
}

/// Evicting expired samples keeps the ids distinct and bounded.
proof fn lemma_retained_ids_ok(pp: Seq<PingPong>, now: u64, bound: SeqId)
    requires
        spec_ids_ok(pp, bound),
    ensures
        spec_ids_ok(spec_retained(pp, now), bound),
    decreases pp.len(),
{
    reveal(Seq::filter);
    let p = |e: PingPong| !spec_expired(e, now);
    if pp.len() == 0 {
    } else {
        let rest = pp.drop_last();
        let last = pp.last();
        assert forall|i: int, j: int| 0 <= i < j < rest.len() implies (
        #[trigger] rest[i]).ping_id != (#[trigger] rest[j]).ping_id by {
            assert(rest[i] == pp[i] && rest[j] == pp[j]);
        }
        assert forall|i: int| 0 <= i < rest.len() implies (#[trigger] rest[i]).ping_id
            <= bound by {
            assert(rest[i] == pp[i]);
        }
        lemma_retained_ids_ok(rest, now, bound);
        if p(last) {
            assert(pp.filter(p) == rest.filter(p).push(last));
            assert forall|i: int, j: int|
                0 <= i < j < pp.filter(p).len() implies (#[trigger] pp.filter(p)[i]).ping_id != (
            #[trigger] pp.filter(p)[j]).ping_id by {
                if j < pp.filter(p).len() - 1 {
                    assert(pp.filter(p)[i] == rest.filter(p)[i]);
                    assert(pp.filter(p)[j] == rest.filter(p)[j]);
                } else {
                    assert(pp.filter(p)[j] == last);
                    let x = rest.filter(p)[i];
                    assert(pp.filter(p)[i] == x);
                    assert(rest.filter(p).contains(x));
                    rest.lemma_filter_contains_rev(p, x);
                    let w = choose|w: int| 0 <= w < rest.len() && rest[w] == x;
                    assert(pp[w] == x);
                    assert(pp[w].ping_id != pp[pp.len() - 1].ping_id);
                }
            }
            assert forall|i: int| 0 <= i < pp.filter(p).len() implies (
            #[trigger] pp.filter(p)[i]).ping_id <= bound by {
                if i < pp.filter(p).len() - 1 {
                    assert(pp.filter(p)[i] == rest.filter(p)[i]);
                } else {
                    assert(pp.filter(p)[i] == last);
                }
            }
        } else {
            assert(pp.filter(p) == rest.filter(p));
            assert forall|i: int, j: int|
                0 <= i < j < pp.filter(p).len() implies (#[trigger] pp.filter(p)[i]).ping_id != (
            #[trigger] pp.filter(p)[j]).ping_id by {
                assert(rest.filter(p)[i].ping_id != rest.filter(p)[j].ping_id);
            }
            assert forall|i: int| 0 <= i < pp.filter(p).len() implies (
            #[trigger] pp.filter(p)[i]).ping_id <= bound by {
                assert(rest.filter(p)[i].ping_id <= bound);
            }
        }
    }
}

/// Complete the entry of the echoed ping id, if it is still retained.
pub fn add_pong(player: &mut Player, pong: &Pong)
    ensures
        final(player).pingpongs@.len() == old(player).pingpongs@.len(),
        forall|i: int|
            0 <= i < old(player).pingpongs@.len() ==> final(player).pingpongs@[i] == (if old(player).pingpongs@[i].ping_id == pong.ping_id {
                PingPong { pong: Some(pong.timestamps), ..old(player).pingpongs@[i] }
            } else {
                old(player).pingpongs@[i]
            }),
        final(player).send_channel == old(player).send_channel,
        final(player).inputs == old(player).inputs,
        final(player).last_input == old(player).last_input,
        final(player).delay == old(player).delay,
{
    let n = player.pingpongs.len();
    let mut i: usize = 0;
    while i < n
        invariant
            n == player.pingpongs@.len(),
            n == old(player).pingpongs@.len(),
            0 <= i <= n,
            forall|w: int|
                0 <= w < i ==> player.pingpongs@[w] == (if old(player).pingpongs@[w].ping_id == pong.ping_id {
                    PingPong { pong: Some(pong.timestamps), ..old(player).pingpongs@[w] }
                } else {
                    old(player).pingpongs@[w]
                }),
            forall|w: int| i <= w < n ==> player.pingpongs@[w] == old(player).pingpongs@[w],
            player.send_channel == old(player).send_channel,
            player.inputs == old(player).inputs,
            player.last_input == old(player).last_input,
            player.delay == old(player).delay,
        decreases n - i,
    {
        let e = player.pingpongs[i];
        if e.ping_id == pong.ping_id {
            player.pingpongs.set(
                i,
                PingPong { ping_id: e.ping_id, sent: e.sent, pong: Some(pong.timestamps) },
            );
        }
        i = i + 1;
    }
}

/// Open a new probe in the player's window.
pub fn register_ping(player: &mut Player, ping_id: SeqId, now: u64)
    ensures
        final(player).pingpongs@ == old(player).pingpongs@.push(
            PingPong { ping_id, sent: now, pong: None },
        ),
        final(player).send_channel == old(player).send_channel,
        final(player).inputs == old(player).inputs,
        final(player).last_input == old(player).last_input,
        final(player).delay == old(player).delay,
{
    player.pingpongs.push(PingPong { ping_id, sent: now, pong: None });
}

/// Fold the retained completed samples into the player's latency
/// estimate, then evict everything older than the buffer window.  With no
/// completed sample the previous estimate stands.
#[verifier::rlimit(100)]
pub fn manage_delays(player: &mut Player, now: u64)
    requires
        now <= i64::MAX as u64,
        spec_times_ok(old(player).pingpongs@, now),
        old(player).pingpongs@.len() <= u32::MAX,
    ensures
        final(player).delay == spec_estimate(old(player).pingpongs@, old(player).delay),
        final(player).pingpongs@ == spec_retained(old(player).pingpongs@, now),
        final(player).send_channel == old(player).send_channel,
        final(player).inputs == old(player).inputs,
        final(player).last_input == old(player).last_input,
{
    let n = player.pingpongs.len();
    let mut ping_sum: u64 = 0;
    let mut clock_sum: i64 = 0;
    let mut count: u64 = 0;
    let mut i: usize = 0;
    while i < n
        invariant
            n == player.pingpongs@.len(),
            now <= i64::MAX as u64,
            spec_times_ok(player.pingpongs@, now),
            0 <= i <= n,
            count == spec_completed_count(player.pingpongs@.subrange(0, i as int)),
            ping_sum == spec_ping_sum(player.pingpongs@.subrange(0, i as int)),
            clock_sum == spec_clock_sum(player.pingpongs@.subrange(0, i as int)),
            count <= i,
            n <= u32::MAX,
            ping_sum <= count * (u32::MAX as u64),
            -(count as int) * (i32::MAX as int) - count <= clock_sum <= count * (i32::MAX as int),
        decreases n - i,
    {
        let e = player.pingpongs[i];
        proof {
            assert(player.pingpongs@.subrange(0, i as int + 1).drop_last() =~= player.pingpongs@.subrange(
                0,
                i as int,
            ));
            assert(player.pingpongs@.subrange(0, i as int + 1).last() == player.pingpongs@[i as int]);
            assert(player.pingpongs@[i as int].sent <= now);
        }
        match e.pong {
            Some(stamp) => {
                proof {
                    assert(player.pingpongs@[i as int].pong->0.server - player.pingpongs@[i as int].sent
                        <= u32::MAX);
                }
                let ping = (stamp.server - e.sent) / 2;
                proof {
                    assert(spec_ping_of(player.pingpongs@[i as int]) == ping);
                    assert(ping <= u32::MAX as u64);
                    assert(player.pingpongs@[i as int].pong->0.client <= i64::MAX);
                    assert(player.pingpongs@[i as int].pong->0.server <= now);
                    assert(i32::MIN <= spec_clock_of(player.pingpongs@[i as int]) <= i32::MAX);
                }
                let clock: i64 = ((stamp.client as i64) - (ping as i64)) - (stamp.server as i64);
                proof {
                    assert(spec_clock_of(player.pingpongs@[i as int]) == clock);
                }
                ping_sum = ping_sum + ping;
                clock_sum = clock_sum + clock;
                count = count + 1;
            },
            None => {},
        }
        i = i + 1;
    }
    proof {
        assert(player.pingpongs@.subrange(0, n as int) =~= player.pingpongs@);
    }
    if count > 0 {
        let mean_ping = ping_sum / count;
        let mean_clock: i64 = if clock_sum >= 0 {
            (clock_sum as u64 / count) as i64
        } else {
            -((((-clock_sum) as u64) / count) as i64)
        };
        proof {
            assert(mean_ping <= u32::MAX as u64) by (nonlinear_arith)
                requires
                    ping_sum <= count * (u32::MAX as u64) && count > 0 && mean_ping == ping_sum
                        / count,
            ;
            assert(i32::MIN <= mean_clock <= i32::MAX) by (nonlinear_arith)
                requires
                    -(count as int) * (i32::MAX as int) - count <= clock_sum <= count * (
                    i32::MAX as int) && count > 0 && mean_clock == spec_div_trunc(
                        clock_sum as int,
                        count as int,
                    ),
            ;
        }
        player.delay = PlayerDelay { ping: mean_ping as usize, clock: mean_clock as i32 };
    }
    // evict expired samples
    let ghost pre: Seq<PingPong> = player.pingpongs@;
    let mut kept: Vec<PingPong> = Vec::new();
    let mut j: usize = 0;
    while j < n
        invariant
            n == player.pingpongs@.len(),
            player.pingpongs@ == pre,
            spec_times_ok(pre, now),
            0 <= j <= n,
            kept@ == pre.subrange(0, j as int).filter(|e: PingPong| !spec_expired(e, now)),
        decreases n - j,
    {
        let e = player.pingpongs[j];
        proof {
            assert(pre[j as int].sent <= now);
            assert(pre.subrange(0, j as int + 1) =~= pre.subrange(0, j as int).push(
                pre[j as int],
            ));
            pre.subrange(0, j as int).lemma_filter_push(
                pre[j as int],
                |e: PingPong| !spec_expired(e, now),
            );
        }
        let still_fresh = match e.pong {
            Some(stamp) => now - stamp.server <= DELAY_BUFFER_TIME,
            None => now - e.sent <= DELAY_BUFFER_TIME,
        };
        if still_fresh {
            kept.push(e);
        }
        j = j + 1;
    }
    proof {
        assert(pre.subrange(0, n as int) =~= pre);
    }
    player.pingpongs = kept;
}

/// The latency-compensation system.
pub struct Delay;

impl Delay {
    /// One delay round: fold every delivered pong into its player's
    /// window, send a sequenced probe to every tagged player, and refresh
    /// every player's estimate.  Each player's final window and estimate,
    /// the generator's advance, and the emitted probe batch are all fixed
    /// exactly.
    #[verifier::rlimit(100)]
    pub fn run(reg: &mut Registry, gen: &mut SeqIdGen, now: u64) -> (out: Vec<(
        SendChannel,
        Message,
    )>)
        requires
            old(reg).wf(),
            now <= i64::MAX as u64,
            old(gen).curr_id + old(reg).n() < u32::MAX,
            forall|e: int|
                0 <= e < old(reg).n() && (#[trigger] old(reg).player@[e]) is Some ==> spec_ids_ok(
                    old(reg).player@[e]->0.pingpongs@,
                    old(gen).curr_id,
                ),
            forall|e: int|
                0 <= e < old(reg).n() && (#[trigger] old(reg).player@[e]) is Some ==> old(reg).player@[e]->0.pingpongs@.len() + 1 <= u32::MAX && spec_times_ok(
                    old(reg).player@[e]->0.pingpongs@,
                    now,
                ) && (old(reg).pong@[e] is Some ==> old(reg).pong@[e]->0.timestamps.server <= now
                    && (forall|i: int|
                    0 <= i < old(reg).player@[e]->0.pingpongs@.len() ==> {
                        let x = (#[trigger] old(reg).player@[e]->0.pingpongs@[i]);
                        x.sent <= old(reg).pong@[e]->0.timestamps.server && old(reg).pong@[e]->0.timestamps.server - x.sent <= u32::MAX && old(reg).pong@[e]->0.timestamps.client <= i64::MAX && i32::MIN <= old(reg).pong@[e]->0.timestamps.client - ((old(reg).pong@[e]->0.timestamps.server - x.sent) as int) / 2 - old(reg).pong@[e]->0.timestamps.server <= i32::MAX
                    })),
        ensures
            final(reg).wf(),
            final(reg).n() == old(reg).n(),
            final(reg).alive@ == old(reg).alive@,
            final(reg).pos@ == old(reg).pos@,
            final(reg).vel@ == old(reg).vel@,
            final(reg).acc@ == old(reg).acc@,
            final(reg).friction@ == old(reg).friction@,
            final(reg).bounciness@ == old(reg).bounciness@,
            final(reg).actor@ == old(reg).actor@,
            final(reg).to_spawn@ == old(reg).to_spawn@,
            final(reg).to_despawn@ == old(reg).to_despawn@,
            forall|e: int| 0 <= e < old(reg).n() ==> !(#[trigger] final(reg).ping@[e]),
            forall|e: int| 0 <= e < old(reg).n() ==> (#[trigger] final(reg).pong@[e]) is None,
            forall|e: int|
                0 <= e < old(reg).n() && (#[trigger] old(reg).player@[e]) is None ==> final(reg).player@[e] is None,
            final(gen).curr_id == old(gen).curr_id + spec_tagged_before(
                *old(reg),
                old(reg).n(),
            ),
            forall|e: int|
                0 <= e < old(reg).n() && (#[trigger] old(reg).player@[e]) is Some ==> {
                    let p0 = old(reg).player@[e]->0;
                    let win = spec_window_input(
                        p0.pingpongs@,
                        old(reg).pong@[e],
                        old(reg).ping@[e],
                        spec_probe_id(*old(reg), old(gen).curr_id, e),
                        now,
                    );
                    &&& final(reg).player@[e] is Some
                    &&& final(reg).player@[e]->0.pingpongs@ == spec_retained(win, now)
                    &&& final(reg).player@[e]->0.delay == spec_estimate(win, p0.delay)
                    &&& final(reg).player@[e]->0.send_channel == p0.send_channel
                    &&& final(reg).player@[e]->0.inputs == p0.inputs
                    &&& final(reg).player@[e]->0.last_input == p0.last_input
                    &&& spec_ids_ok(final(reg).player@[e]->0.pingpongs@, final(gen).curr_id)
                },
            spec_sent_views(out@) == spec_probe_views(*old(reg), old(gen).curr_id, old(reg).n()),
    {
        let mut out: Vec<(SendChannel, Message)> = Vec::new();
        let n = reg.alive.len();
        let mut e: usize = 0;
        while e < n
            invariant
                reg.wf(),
                n == old(reg).n(),
                reg.n() == n,
                0 <= e <= n,
                gen.curr_id == old(gen).curr_id + spec_tagged_before(*old(reg), e as int),
                0 <= spec_tagged_before(*old(reg), e as int) <= e,
                old(gen).curr_id + n < u32::MAX,
                reg.alive@ == old(reg).alive@,
                reg.pos@ == old(reg).pos@,
                reg.vel@ == old(reg).vel@,
                reg.acc@ == old(reg).acc@,
                reg.friction@ == old(reg).friction@,
                reg.bounciness@ == old(reg).bounciness@,
                reg.actor@ == old(reg).actor@,
                reg.to_spawn@ == old(reg).to_spawn@,
                reg.to_despawn@ == old(reg).to_despawn@,
                now <= i64::MAX as u64,
                forall|w: int|
                    0 <= w < old(reg).n() && (#[trigger] old(reg).player@[w]) is Some
                        ==> spec_ids_ok(old(reg).player@[w]->0.pingpongs@, old(gen).curr_id),
                forall|w: int|
                    0 <= w < old(reg).n() && (#[trigger] old(reg).player@[w]) is Some ==> old(reg).player@[w]->0.pingpongs@.len() + 1 <= u32::MAX && spec_times_ok(
                        old(reg).player@[w]->0.pingpongs@,
                        now,
                    ) && (old(reg).pong@[w] is Some ==> old(reg).pong@[w]->0.timestamps.server
                        <= now && (forall|i: int|
                        0 <= i < old(reg).player@[w]->0.pingpongs@.len() ==> {
                            let x = (#[trigger] old(reg).player@[w]->0.pingpongs@[i]);
                            x.sent <= old(reg).pong@[w]->0.timestamps.server && old(reg).pong@[w]->0.timestamps.server - x.sent <= u32::MAX && old(reg).pong@[w]->0.timestamps.client <= i64::MAX && i32::MIN <= old(reg).pong@[w]->0.timestamps.client - ((old(reg).pong@[w]->0.timestamps.server - x.sent) as int) / 2 - old(reg).pong@[w]->0.timestamps.server <= i32::MAX
                        })),
                forall|w: int| 0 <= w < e ==> !(#[trigger] reg.ping@[w]),
                forall|w: int| 0 <= w < e ==> (#[trigger] reg.pong@[w]) is None,
                forall|w: int|
                    0 <= w < n && (#[trigger] old(reg).player@[w]) is None ==> reg.player@[w] is None,
                forall|w: int|
                    e <= w < n ==> reg.player@[w] == old(reg).player@[w] && reg.ping@[w] == old(reg).ping@[w] && reg.pong@[w] == old(reg).pong@[w],
                forall|w: int|
                    0 <= w < e && (#[trigger] old(reg).player@[w]) is Some ==> {
                        let p0 = old(reg).player@[w]->0;
                        let win = spec_window_input(
                            p0.pingpongs@,
                            old(reg).pong@[w],
                            old(reg).ping@[w],
                            spec_probe_id(*old(reg), old(gen).curr_id, w),
                            now,
                        );
                        &&& reg.player@[w] is Some
                        &&& reg.player@[w]->0.pingpongs@ == spec_retained(win, now)
                        &&& reg.player@[w]->0.delay == spec_estimate(win, p0.delay)
                        &&& reg.player@[w]->0.send_channel == p0.send_channel
                        &&& reg.player@[w]->0.inputs == p0.inputs
                        &&& reg.player@[w]->0.last_input == p0.last_input
                        &&& spec_ids_ok(reg.player@[w]->0.pingpongs@, gen.curr_id)
                    },
                spec_sent_views(out@) == spec_probe_views(*old(reg), old(gen).curr_id, e as int),
            decreases n - e,
        {
            let ghost e0: int = e as int;
            let ghost curr_pre: SeqId = gen.curr_id;
            let has_player = reg.player[e].is_some();
            let tagged = reg.ping[e];
            if has_player {
                let mut slot: Option<Player> = None;
                reg.player.set_and_swap(e, &mut slot);
                let mut player = slot.unwrap();
                let ghost pp0: Seq<PingPong> = player.pingpongs@;
                proof {
                    assert(old(reg).player@[e0] is Some);
                    assert(pp0 == old(reg).player@[e0]->0.pingpongs@);
                    assert(spec_ids_ok(pp0, old(gen).curr_id));
                }
                match reg.pong[e] {
                    Some(pong) => {
                        add_pong(&mut player, &pong);
                    },
                    None => {},
                }
                proof {
                    assert(reg.pong@[e0] == old(reg).pong@[e0]);
                    assert(player.pingpongs@ =~= spec_fold_pong(pp0, old(reg).pong@[e0]));
                }
                let ghost folded: Seq<PingPong> = player.pingpongs@;
                if tagged {
                    let ping_id = gen.gen();
                    proof {
                        lemma_tagged_before_bounds(*old(reg), e0);
                        assert(ping_id == spec_probe_id(*old(reg), old(gen).curr_id, e0));
                    }
                    register_ping(&mut player, ping_id, now);
                    let msg = (player.send_channel, Message::new_ping(ping_id));
                    let ghost out_pre: Seq<(SendChannel, Message)> = out@;
                    out.push(msg);
                    proof {
                        lemma_sent_views_push(out_pre, msg);
                        assert(player.send_channel == old(reg).player@[e0]->0.send_channel);
                        assert(spec_sent_view(msg) == (
                            old(reg).player@[e0]->0.send_channel,
                            OpCode::Ping,
                            PayloadView::Ping {
                                ping_id: spec_probe_id(*old(reg), old(gen).curr_id, e0),
                            },
                        ));
                        assert(spec_probe_views(*old(reg), old(gen).curr_id, e0 + 1)
                            == spec_probe_views(*old(reg), old(gen).curr_id, e0).push(
                            spec_sent_view(msg),
                        ));
                        assert(spec_sent_views(out@) == spec_probe_views(
                            *old(reg),
                            old(gen).curr_id,
                            e0 + 1,
                        ));
                        assert(gen.curr_id == old(gen).curr_id + spec_tagged_before(
                            *old(reg),
                            e0 + 1,
                        ));
                    }
                    reg.ping.set(e, false);
                } else {
                    proof {
                        assert(spec_probe_views(*old(reg), old(gen).curr_id, e0 + 1)
                            == spec_probe_views(*old(reg), old(gen).curr_id, e0));
                        assert(gen.curr_id == old(gen).curr_id + spec_tagged_before(
                            *old(reg),
                            e0 + 1,
                        ));
                    }
                }
                proof {
                    assert(player.pingpongs@ == spec_window_input(
                        pp0,
                        old(reg).pong@[e0],
                        old(reg).ping@[e0],
                        spec_probe_id(*old(reg), old(gen).curr_id, e0),
                        now,
                    ));
                    // the folded entries keep their ids; the fresh probe id is
                    // newer than every retained one
                    assert forall|i: int| 0 <= i < folded.len() implies (
                    #[trigger] folded[i]).ping_id == pp0[i].ping_id by {
                    }
                    assert(spec_ids_ok(player.pingpongs@, gen.curr_id)) by {
                        assert forall|i: int, j: int|
                            0 <= i < j < player.pingpongs@.len() implies (
                        #[trigger] player.pingpongs@[i]).ping_id != (
                        #[trigger] player.pingpongs@[j]).ping_id by {
                            if j < folded.len() {
                                assert(pp0[i].ping_id != pp0[j].ping_id);
                            } else {
                                assert(pp0[i].ping_id <= old(gen).curr_id);
                            }
                        }
                        assert forall|i: int|
                            0 <= i < player.pingpongs@.len() implies (
                        #[trigger] player.pingpongs@[i]).ping_id <= gen.curr_id by {
                            if i < folded.len() {
                                assert(pp0[i].ping_id <= old(gen).curr_id);
                            }
                        }
                    }
                    assert(pp0.len() + 1 <= u32::MAX);
                    assert(player.pingpongs@.len() <= u32::MAX);
                    assert forall|i: int|
                        0 <= i < player.pingpongs@.len() implies ((
                    #[trigger] player.pingpongs@[i]).sent <= now && (
                    player.pingpongs@[i].pong is Some ==> player.pingpongs@[i].sent
                        <= player.pingpongs@[i].pong->0.server <= now
                        && player.pingpongs@[i].pong->0.server - player.pingpongs@[i].sent
                        <= u32::MAX && player.pingpongs@[i].pong->0.client <= i64::MAX && i32::MIN
                        <= spec_clock_of(player.pingpongs@[i]) <= i32::MAX)) by {
                        if i < pp0.len() {
                            assert(pp0[i].sent <= now);
                            if player.pingpongs@[i] != pp0[i] {
                                assert(old(reg).pong@[e0] is Some);
                                assert(player.pingpongs@[i].pong == Some(
                                    old(reg).pong@[e0]->0.timestamps,
                                ));
                                assert(pp0[i].sent <= old(reg).pong@[e0]->0.timestamps.server);
                            }
                        }
                    }
                }
                let ghost win: Seq<PingPong> = player.pingpongs@;
                manage_delays(&mut player, now);
                proof {
                    lemma_times_ok_filter(win, now, |w: PingPong| !spec_expired(w, now));
                    lemma_retained_ids_ok(win, now, gen.curr_id);
                }
                reg.player.set(e, Some(player));
            } else {
                if tagged {
                    reg.ping.set(e, false);
                }
                proof {
                    assert(old(reg).player@[e0] is None);
                    assert(spec_probe_views(*old(reg), old(gen).curr_id, e0 + 1)
                        == spec_probe_views(*old(reg), old(gen).curr_id, e0));
                    assert(gen.curr_id == old(gen).curr_id + spec_tagged_before(
                        *old(reg),
                        e0 + 1,
                    ));
                }
            }
            reg.pong.set(e, None);
            e = e + 1;
            proof {
                assert forall|w: int| 0 <= w < e implies !(#[trigger] reg.ping@[w]) by {
                }
                assert forall|w: int| 0 <= w < e implies (#[trigger] reg.pong@[w]) is None by {
                }
                assert forall|w: int|
                    0 <= w < e && (#[trigger] old(reg).player@[w]) is Some implies {
                    let p0 = old(reg).player@[w]->0;
                    let win2 = spec_window_input(
                        p0.pingpongs@,
                        old(reg).pong@[w],
                        old(reg).ping@[w],
                        spec_probe_id(*old(reg), old(gen).curr_id, w),
                        now,
                    );
                    &&& reg.player@[w] is Some
                    &&& reg.player@[w]->0.pingpongs@ == spec_retained(win2, now)
                    &&& reg.player@[w]->0.delay == spec_estimate(win2, p0.delay)
                    &&& reg.player@[w]->0.send_channel == p0.send_channel
                    &&& reg.player@[w]->0.inputs == p0.inputs
                    &&& reg.player@[w]->0.last_input == p0.last_input
                    &&& spec_ids_ok(reg.player@[w]->0.pingpongs@, gen.curr_id)
                } by {
                    if w < e - 1 {
                        lemma_ids_ok_weaken(reg.player@[w]->0.pingpongs@, curr_pre, gen.curr_id);
                    }
                }
            }
        }
        out
    }
}

/// The tagged-player count over a prefix is at most the prefix length.
proof fn lemma_tagged_before_bounds(reg: Registry, upto: int)
    requires
        upto >= 0,
    ensures
        0 <= spec_tagged_before(reg, upto) <= upto,
    decreases upto,
{
    if upto > 0 {
        lemma_tagged_before_bounds(reg, upto - 1);
    }
}

/// A window with sane timestamps keeps them under any filter.
proof fn lemma_times_ok_filter(pre: Seq<PingPong>, now: u64, p: spec_fn(PingPong) -> bool)
    requires
        spec_times_ok(pre, now),
    ensures
        spec_times_ok(pre.filter(p), now),
{
    let f = pre.filter(p);
    assert forall|i: int| 0 <= i < f.len() implies ((#[trigger] f[i]).sent <= now && (
    f[i].pong is Some ==> f[i].sent <= f[i].pong->0.server <= now && f[i].pong->0.server
        - f[i].sent <= u32::MAX && f[i].pong->0.client <= i64::MAX && i32::MIN <= spec_clock_of(
        f[i],
    ) <= i32::MAX)) by {
        let x = f[i];
        assert(f.contains(x));
        pre.lemma_filter_contains_rev(p, x);
        let w = choose|w: int| 0 <= w < pre.len() && pre[w] == x;
        assert(pre[w].sent <= now);
    }
}

} // verus!
