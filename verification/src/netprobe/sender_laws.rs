//! What the senders do over a whole run: which packets and records they send, in
//! which order, and what comes between them.
use vstd::arithmetic::div_mod::lemma_fundamental_div_mod_converse;
use vstd::prelude::*;

use crate::netprobe::clock::{has_elapsed, saturating_product};
use crate::netprobe::config::{client_fault, udp_client_fault, ClientConfig, UdpClientConfig};
use crate::netprobe::tcp_client::{
    fresh_stream, greeting, outgoing_chunk, stream_chunks, stream_step, TcpActionModel, TcpEvent, TcpPhase,
    TcpSenderModel,
};
use crate::netprobe::udp_client::{
    announcement, client_step, control_handled, farewell, frame_target, fresh_sender, lemma_chunk_count,
    UdpActionModel, UdpPhase, UdpSenderModel, BYE_PACKETS, LINGER_SLEEP_NS,
};
use crate::netprobe::wire::{lemma_ceil_div_bounds, payload_bytes};

verus! {

// ---------------------------------------------------------------------------
// UDP
// ---------------------------------------------------------------------------

/// A turn of a UDP sender: the clocks at its step, and the control packets that
/// are read after it.
pub struct UdpTurn {
    pub now: u64,
    pub unix_us: u64,
    pub controls: Seq<Seq<u8>>,
}

/// The sender after control packets.
pub open spec fn controls_handled(m: UdpSenderModel, controls: Seq<Seq<u8>>, verbose: bool) -> UdpSenderModel
    decreases controls.len(),
{
    if controls.len() == 0 {
        m
    } else {
        control_handled(controls_handled(m, controls.drop_last(), verbose), controls.last(), verbose).0
    }
}

/// The sender after a turn, its log handed out, and what it did.
pub open spec fn udp_turn(m: UdpSenderModel, config: UdpClientConfig<String>, turn: UdpTurn) -> (
    UdpSenderModel,
    UdpActionModel,
) {
    let (next, action) = client_step(m, config, turn.now, turn.unix_us);
    let handled = controls_handled(next, turn.controls, config.verbose_chunks);
    (UdpSenderModel { log: seq![], ..handled }, action)
}

/// The sender after some turns, and what it did in each of them.
pub open spec fn udp_run(m: UdpSenderModel, config: UdpClientConfig<String>, turns: Seq<UdpTurn>) -> (
    UdpSenderModel,
    Seq<UdpActionModel>,
)
    decreases turns.len(),
{
    if turns.len() == 0 {
        (m, seq![])
    } else {
        let (before, actions) = udp_run(m, config, turns.drop_last());
        let (next, action) = udp_turn(before, config, turns.last());
        (next, actions.push(action))
    }
}

/// The packets that were sent, without those sent again on request.
pub open spec fn packets_of(actions: Seq<UdpActionModel>) -> Seq<Seq<u8>>
    decreases actions.len(),
{
    if actions.len() == 0 {
        seq![]
    } else {
        let before = packets_of(actions.drop_last());
        match actions.last() {
            UdpActionModel::Announce(packet) => before.push(packet),
            UdpActionModel::Video(packet) => before.push(packet),
            UdpActionModel::Bye { packet, .. } => before.push(packet),
            _ => before,
        }
    }
}

/// Whether each frame is announced, as a number of packets.
pub open spec fn announcements(config: UdpClientConfig<String>) -> int {
    if config.announce_frames {
        1
    } else {
        0
    }
}

/// The number of packets of a frame.
pub open spec fn frame_packets(m: UdpSenderModel, config: UdpClientConfig<String>) -> int {
    announcements(config) + m.chunk_count()
}

/// The number of packets of all frames.
pub open spec fn run_packets(m: UdpSenderModel, config: UdpClientConfig<String>) -> int {
    frame_target(config) * frame_packets(m, config)
}

/// The packet `k` of a run, made at a time of day: for each frame in its turn
/// the announcement, where frames are announced, and the chunks in their order;
/// behind them the packets that end the session.
pub open spec fn planned_packet(m: UdpSenderModel, config: UdpClientConfig<String>, k: int, unix_us: u64) -> Seq<
    u8,
> {
    if k < run_packets(m, config) {
        let frame_id = (k / frame_packets(m, config)) as u64;
        let place = k % frame_packets(m, config) - announcements(config);
        if place < 0 {
            announcement(UdpSenderModel { frames_sent: frame_id, ..m }, unix_us)
        } else {
            m.video_packet(frame_id, place as u32, unix_us)
        }
    } else {
        farewell(UdpSenderModel { frames_sent: frame_target(config), ..m }, unix_us)
    }
}

/// Whether a packet is the packet `k` of a run, made at some time of day.
pub open spec fn is_planned(m: UdpSenderModel, config: UdpClientConfig<String>, k: int, packet: Seq<u8>) -> bool {
    exists|unix_us: u64| packet == #[trigger] planned_packet(m, config, k, unix_us)
}

/// Whether a sender does nothing from `from` until `to` but look for control
/// packets and sleep, in turns, and looks only within the linger time since
/// `from`.
pub open spec fn only_lingers(
    config: UdpClientConfig<String>,
    turns: Seq<UdpTurn>,
    actions: Seq<UdpActionModel>,
    from: int,
    to: int,
) -> bool {
    &&& 0 <= from <= to <= actions.len()
    &&& forall|x: int|
        from <= x < to ==> if (x - from) % 2 == 0 {
            &&& #[trigger] actions[x] is Drain
            &&& !has_elapsed(turns[from].now, turns[x].now, config.nack_linger_ms)
        } else {
            actions[x] == (UdpActionModel::Sleep { ns: LINGER_SLEEP_NS })
        }
}

/// Whether a sender had sent all frames before `from`, lingers from then on and
/// says goodbye at `to`, when the linger time has passed.
pub open spec fn lingers(
    m: UdpSenderModel,
    config: UdpClientConfig<String>,
    turns: Seq<UdpTurn>,
    actions: Seq<UdpActionModel>,
    from: int,
    to: int,
) -> bool {
    &&& only_lingers(config, turns, actions, from, to)
    &&& to < actions.len()
    &&& actions[to] is Bye
    &&& has_elapsed(turns[from].now, turns[to].now, config.nack_linger_ms)
    &&& packets_of(actions.take(from)).len() == run_packets(m, config)
    &&& packets_of(actions.take(to)).len() == run_packets(m, config)
}

/// What holds of a run at each of its turns; `marks` are where lingering begins
/// and ends.
spec fn udp_run_holds(
    fresh: UdpSenderModel,
    config: UdpClientConfig<String>,
    turns: Seq<UdpTurn>,
    m: UdpSenderModel,
    actions: Seq<UdpActionModel>,
    marks: (int, int),
) -> bool {
    let sent = packets_of(actions).len();
    let per = frame_packets(fresh, config);
    let all = run_packets(fresh, config);
    let (from, to) = marks;
    &&& m.session_id == fresh.session_id
    &&& m.frame_size == fresh.frame_size
    &&& m.payload_size == fresh.payload_size
    &&& m.next_chunk <= fresh.chunk_count()
    &&& actions.len() == turns.len()
    &&& m.frames_sent <= frame_target(config)
    &&& m.phase.in_frame() ==> m.frames_sent < frame_target(config)
    &&& forall|k: int|
        0 <= k < sent ==> is_planned(fresh, config, k, #[trigger] packets_of(actions)[k])
    &&& match m.phase {
        UdpPhase::Frame => sent == m.frames_sent * per,
        UdpPhase::Video | UdpPhase::Sent { .. } | UdpPhase::Paced => sent == m.frames_sent * per + announcements(
            config,
        ) + m.next_chunk,
        UdpPhase::Closed => sent == m.frames_sent * per + per,
        UdpPhase::Linger { since } => {
            &&& m.frames_sent == frame_target(config)
            &&& sent == all
            &&& only_lingers(config, turns, actions, from, actions.len() as int)
            &&& from < actions.len()
            &&& (actions.len() - from) % 2 == 0
            &&& turns[from].now == since
            &&& packets_of(actions.take(from)).len() == all
        },
        UdpPhase::Lingered { since } => {
            &&& m.frames_sent == frame_target(config)
            &&& sent == all
            &&& only_lingers(config, turns, actions, from, actions.len() as int)
            &&& from < actions.len()
            &&& (actions.len() - from) % 2 == 1
            &&& turns[from].now == since
            &&& packets_of(actions.take(from)).len() == all
        },
        UdpPhase::Bye { sent: said, .. } | UdpPhase::ByeSent { sent: said, .. } => {
            &&& m.frames_sent == frame_target(config)
            &&& 0 < said <= BYE_PACKETS
            &&& sent == all + said
            &&& lingers(fresh, config, turns, actions, from, to)
        },
        UdpPhase::Done => {
            &&& m.frames_sent == frame_target(config)
            &&& sent == all + BYE_PACKETS
            &&& lingers(fresh, config, turns, actions, from, to)
        },
    }
}

/// Control packets leave everything but the totals and the log as it is.
proof fn lemma_controls_keep(m: UdpSenderModel, controls: Seq<Seq<u8>>, verbose: bool)
    ensures
        ({
            let after = controls_handled(m, controls, verbose);
            after == UdpSenderModel { stats: after.stats, log: after.log, ..m }
        }),
    decreases controls.len(),
{
    if controls.len() > 0 {
        lemma_controls_keep(m, controls.drop_last(), verbose);
    }
}

/// The place of a packet of a frame in the run.
proof fn lemma_place(fresh: UdpSenderModel, config: UdpClientConfig<String>, frame_id: u64, offset: int)
    requires
        0 <= offset < frame_packets(fresh, config),
        frame_id < frame_target(config),
    ensures
        ({
            let per = frame_packets(fresh, config);
            let k = frame_id * per + offset;
            &&& 0 <= k < run_packets(fresh, config)
            &&& k / per == frame_id
            &&& k % per == offset
        }),
{
    let per = frame_packets(fresh, config);
    let target = frame_target(config) as int;
    let id = frame_id as int;
    assert(0 <= id * per && id * per + per <= target * per) by (nonlinear_arith)
        requires
            0 <= id < target,
            0 < per,
    ;
    lemma_fundamental_div_mod_converse(id * per + offset, per, id, offset);
}

/// Appending an action keeps what holds of the turns before.
proof fn lemma_only_lingers_on(
    config: UdpClientConfig<String>,
    turns: Seq<UdpTurn>,
    actions: Seq<UdpActionModel>,
    action: UdpActionModel,
    from: int,
    to: int,
)
    requires
        turns.len() == actions.len() + 1,
        only_lingers(config, turns.drop_last(), actions, from, to),
    ensures
        only_lingers(config, turns, actions.push(action), from, to),
{
    let longer = actions.push(action);
    assert forall|x: int| from <= x < to implies if (x - from) % 2 == 0 {
        &&& #[trigger] longer[x] is Drain
        &&& !has_elapsed(turns[from].now, turns[x].now, config.nack_linger_ms)
    } else {
        longer[x] == (UdpActionModel::Sleep { ns: LINGER_SLEEP_NS })
    } by {
        assert(longer[x] == actions[x]);
    }
}

proof fn lemma_lingers_on(
    m: UdpSenderModel,
    config: UdpClientConfig<String>,
    turns: Seq<UdpTurn>,
    actions: Seq<UdpActionModel>,
    action: UdpActionModel,
    from: int,
    to: int,
)
    requires
        turns.len() == actions.len() + 1,
        lingers(m, config, turns.drop_last(), actions, from, to),
    ensures
        lingers(m, config, turns, actions.push(action), from, to),
{
    lemma_only_lingers_on(config, turns, actions, action, from, to);
    assert(actions.push(action).take(from) =~= actions.take(from));
    assert(actions.push(action).take(to) =~= actions.take(to));
}

proof fn lemma_chunk_turn(
    fresh: UdpSenderModel,
    config: UdpClientConfig<String>,
    turns: Seq<UdpTurn>,
    m: UdpSenderModel,
    actions: Seq<UdpActionModel>,
    marks: (int, int),
)
    requires
        turns.len() > 0,
        fresh.frame_size > 0,
        fresh.payload_size > 0,
        udp_run_holds(fresh, config, turns.drop_last(), m, actions, marks),
        m.phase is Video && m.next_chunk < fresh.chunk_count(),
    ensures
        ({
            let (next, action) = udp_turn(m, config, turns.last());
            udp_run_holds(fresh, config, turns, next, actions.push(action), marks)
        }),
{
    lemma_chunk_count(fresh);
    let turn = turns.last();
    let (stepped, action) = client_step(m, config, turn.now, turn.unix_us);
    lemma_controls_keep(stepped, turn.controls, config.verbose_chunks);
    let longer = actions.push(action);
    assert(longer.drop_last() =~= actions);
    let before = packets_of(actions);
    let after = packets_of(longer);
    let per = frame_packets(fresh, config);
    let offset = announcements(config) + m.next_chunk;
    lemma_place(fresh, config, m.frames_sent, offset);
    assert(planned_packet(fresh, config, m.frames_sent * per + offset, turn.unix_us) == m.video_packet(
        m.frames_sent,
        m.next_chunk,
        turn.unix_us,
    ));
    assert forall|k: int| 0 <= k < after.len() implies is_planned(fresh, config, k, #[trigger] after[k]) by {
        if k < before.len() {
            assert(after[k] == before[k]);
        }
    }
}

proof fn lemma_open_turn(
    fresh: UdpSenderModel,
    config: UdpClientConfig<String>,
    turns: Seq<UdpTurn>,
    m: UdpSenderModel,
    actions: Seq<UdpActionModel>,
    marks: (int, int),
)
    requires
        turns.len() > 0,
        fresh.frame_size > 0,
        fresh.payload_size > 0,
        udp_run_holds(fresh, config, turns.drop_last(), m, actions, marks),
        m.phase is Frame && m.frames_sent < frame_target(config),
    ensures
        ({
            let (next, action) = udp_turn(m, config, turns.last());
            udp_run_holds(fresh, config, turns, next, actions.push(action), marks)
        }),
{
    lemma_chunk_count(fresh);
    let turn = turns.last();
    let (stepped, action) = client_step(m, config, turn.now, turn.unix_us);
    lemma_controls_keep(stepped, turn.controls, config.verbose_chunks);
    let longer = actions.push(action);
    assert(longer.drop_last() =~= actions);
    let before = packets_of(actions);
    let after = packets_of(longer);
    let per = frame_packets(fresh, config);
    lemma_place(fresh, config, m.frames_sent, 0);
    let planned = planned_packet(fresh, config, m.frames_sent * per, turn.unix_us);
    if config.announce_frames {
        assert(planned == announcement(m, turn.unix_us));
    } else {
        assert(planned == m.video_packet(m.frames_sent, 0, turn.unix_us));
    }
    assert forall|k: int| 0 <= k < after.len() implies is_planned(fresh, config, k, #[trigger] after[k]) by {
        if k < before.len() {
            assert(after[k] == before[k]);
        }
    }
}

proof fn lemma_quiet_turn(
    fresh: UdpSenderModel,
    config: UdpClientConfig<String>,
    turns: Seq<UdpTurn>,
    m: UdpSenderModel,
    actions: Seq<UdpActionModel>,
    marks: (int, int),
)
    requires
        turns.len() > 0,
        fresh.frame_size > 0,
        fresh.payload_size > 0,
        udp_run_holds(fresh, config, turns.drop_last(), m, actions, marks),
        m.phase is Sent || m.phase is Paced || m.phase is Closed || (m.phase is Video && m.next_chunk
            == fresh.chunk_count()),
    ensures
        ({
            let (next, action) = udp_turn(m, config, turns.last());
            udp_run_holds(fresh, config, turns, next, actions.push(action), marks)
        }),
{
    lemma_chunk_count(fresh);
    let turn = turns.last();
    let (stepped, action) = client_step(m, config, turn.now, turn.unix_us);
    lemma_controls_keep(stepped, turn.controls, config.verbose_chunks);
    let longer = actions.push(action);
    assert(longer.drop_last() =~= actions);
    let before = packets_of(actions);
    let after = packets_of(longer);
    let per = frame_packets(fresh, config);
    let id = m.frames_sent as int;
    assert(id * per + per == (id + 1) * per) by (nonlinear_arith);
    assert(after == before);
}

#[verifier::rlimit(30)]
proof fn lemma_ending_turn(
    fresh: UdpSenderModel,
    config: UdpClientConfig<String>,
    turns: Seq<UdpTurn>,
    m: UdpSenderModel,
    actions: Seq<UdpActionModel>,
    marks: (int, int),
) -> (after_marks: (int, int))
    requires
        turns.len() > 0,
        fresh.frame_size > 0,
        fresh.payload_size > 0,
        udp_run_holds(fresh, config, turns.drop_last(), m, actions, marks),
        !m.phase.in_frame(),
        m.phase is Frame ==> m.frames_sent == frame_target(config),
    ensures
        ({
            let (next, action) = udp_turn(m, config, turns.last());
            udp_run_holds(fresh, config, turns, next, actions.push(action), after_marks)
        }),
{
    lemma_chunk_count(fresh);
    let turn = turns.last();
    let (stepped, action) = client_step(m, config, turn.now, turn.unix_us);
    lemma_controls_keep(stepped, turn.controls, config.verbose_chunks);
    let longer = actions.push(action);
    assert(longer.drop_last() =~= actions);
    let before = packets_of(actions);
    let after = packets_of(longer);
    let (from, to) = marks;
    let last = actions.len() as int;
    let all = run_packets(fresh, config);
    assert(longer.take(last) =~= actions);
    let after_marks = match m.phase {
        UdpPhase::Frame => {
            if has_elapsed(turn.now, turn.now, config.nack_linger_ms) {
                assert(only_lingers(config, turns, longer, last, last));
                assert(planned_packet(fresh, config, all, turn.unix_us) == farewell(m, turn.unix_us));
            } else {
                assert(longer[last] is Drain);
                assert(only_lingers(config, turns, longer, last, last + 1));
            }
            (last, last)
        },
        UdpPhase::Linger { since } => {
            assert(longer.take(from) =~= actions.take(from));
            lemma_only_lingers_on(config, turns, actions, action, from, last);
            if has_elapsed(since, turn.now, config.nack_linger_ms) {
                assert(planned_packet(fresh, config, all, turn.unix_us) == farewell(m, turn.unix_us));
            } else {
                assert(only_lingers(config, turns, longer, from, last + 1));
            }
            (from, last)
        },
        UdpPhase::Lingered { since } => {
            assert(longer.take(from) =~= actions.take(from));
            lemma_only_lingers_on(config, turns, actions, action, from, last);
            assert(only_lingers(config, turns, longer, from, last + 1));
            marks
        },
        UdpPhase::Bye { sent, unix_us } => {
            lemma_lingers_on(fresh, config, turns, actions, action, from, to);
            if sent < BYE_PACKETS {
                assert(planned_packet(fresh, config, all + sent, unix_us) == farewell(m, unix_us));
            }
            marks
        },
        _ => {
            lemma_lingers_on(fresh, config, turns, actions, action, from, to);
            marks
        },
    };
    assert forall|k: int| 0 <= k < after.len() implies is_planned(fresh, config, k, #[trigger] after[k]) by {
        if k < before.len() {
            assert(after[k] == before[k]);
        }
    }
    after_marks
}

proof fn lemma_udp_run(
    config: UdpClientConfig<String>,
    session_id: u64,
    start: u64,
    turns: Seq<UdpTurn>,
) -> (marks: (int, int))
    requires
        udp_client_fault(config) is None,
    ensures
        ({
            let fresh = fresh_sender(config, session_id, start);
            let (m, actions) = udp_run(fresh, config, turns);
            udp_run_holds(fresh, config, turns, m, actions, marks)
        }),
    decreases turns.len(),
{
    let fresh = fresh_sender(config, session_id, start);
    if turns.len() == 0 {
        lemma_chunk_count(fresh);
        let per = frame_packets(fresh, config);
        assert(0 * per == 0) by (nonlinear_arith);
        (0, 0)
    } else {
        let (m, actions) = udp_run(fresh, config, turns.drop_last());
        let marks = lemma_udp_run(config, session_id, start, turns.drop_last());
        if m.phase is Frame && m.frames_sent < frame_target(config) {
            lemma_open_turn(fresh, config, turns, m, actions, marks);
            marks
        } else if m.phase is Video && m.next_chunk < fresh.chunk_count() {
            lemma_chunk_turn(fresh, config, turns, m, actions, marks);
            marks
        } else if m.phase.in_frame() {
            lemma_quiet_turn(fresh, config, turns, m, actions, marks);
            marks
        } else {
            lemma_ending_turn(fresh, config, turns, m, actions, marks)
        }
    }
}

/// What a sender sends over a whole run, whatever the clocks show and whatever
/// control packets arrive: for each frame one announcement, if and only if
/// frames are announced, and then each of its chunks once, in their order; after
/// the last frame three packets that end the session, with the number of the
/// frames. A run that has come to its end has sent all of them.
pub proof fn law_udp_run_sends_the_plan(
    config: UdpClientConfig<String>,
    session_id: u64,
    start: u64,
    turns: Seq<UdpTurn>,
)
    requires
        udp_client_fault(config) is None,
    ensures
        ({
            let fresh = fresh_sender(config, session_id, start);
            let (m, actions) = udp_run(fresh, config, turns);
            let packets = packets_of(actions);
            let all = run_packets(fresh, config) + BYE_PACKETS;
            &&& packets.len() <= all
            &&& forall|k: int|
                0 <= k < packets.len() ==> is_planned(fresh, config, k, #[trigger] packets[k])
            &&& m.phase is Done ==> packets.len() == all
        }),
{
    let fresh = fresh_sender(config, session_id, start);
    let (m, actions) = udp_run(fresh, config, turns);
    lemma_udp_run(config, session_id, start, turns);
    lemma_chunk_count(fresh);
    let per = frame_packets(fresh, config);
    let id = m.frames_sent as int;
    let target = frame_target(config) as int;
    assert(id < target ==> id * per + per <= target * per) by (nonlinear_arith)
        requires
            0 < per,
    ;
}

/// Before it says goodbye the sender waits for requests: after the last frame it
/// looks for control packets, with short sleeps, until the linger time has
/// passed, and only then the session ends.
pub proof fn law_udp_run_lingers_before_goodbye(
    config: UdpClientConfig<String>,
    session_id: u64,
    start: u64,
    turns: Seq<UdpTurn>,
)
    requires
        udp_client_fault(config) is None,
        ({
            let fresh = fresh_sender(config, session_id, start);
            packets_of(udp_run(fresh, config, turns).1).len() > run_packets(fresh, config)
        }),
    ensures
        ({
            let fresh = fresh_sender(config, session_id, start);
            let actions = udp_run(fresh, config, turns).1;
            exists|from: int, to: int| #[trigger] lingers(fresh, config, turns, actions, from, to)
        }),
{
    let fresh = fresh_sender(config, session_id, start);
    let (m, actions) = udp_run(fresh, config, turns);
    let (from, to) = lemma_udp_run(config, session_id, start, turns);
    lemma_chunk_count(fresh);
    let per = frame_packets(fresh, config);
    let id = m.frames_sent as int;
    let target = frame_target(config) as int;
    assert(id < target ==> id * per + per <= target * per) by (nonlinear_arith)
        requires
            0 < per,
    ;
    assert(lingers(fresh, config, turns, actions, from, to));
}

/// Between two chunks, and after the last one of a frame, the sender looks for
/// control packets: each chunk is followed by a look at the socket, at most a
/// pause comes before it.
pub proof fn law_udp_sender_looks_after_each_chunk(
    m: UdpSenderModel,
    config: UdpClientConfig<String>,
    first: UdpTurn,
    second: UdpTurn,
    third: UdpTurn,
)
    requires
        client_step(m, config, first.now, first.unix_us).1 is Video,
    ensures
        ({
            let after_chunk = udp_turn(m, config, first).0;
            let (then, answer) = udp_turn(after_chunk, config, second);
            ||| answer is Drain
            ||| answer is Pause && udp_turn(then, config, third).1 is Drain
        }),
{
    let stepped = client_step(m, config, first.now, first.unix_us).0;
    lemma_controls_keep(stepped, first.controls, config.verbose_chunks);
    let after_chunk = udp_turn(m, config, first).0;
    let reported = client_step(after_chunk, config, second.now, second.unix_us).0;
    lemma_controls_keep(reported, second.controls, config.verbose_chunks);
}

// ---------------------------------------------------------------------------
// TCP
// ---------------------------------------------------------------------------

/// A turn of a TCP sender: how what it asked for has ended, and the clocks.
pub struct TcpTurn {
    pub event: TcpEvent,
    pub now: u64,
    pub unix_us: u64,
}

/// The sender after some turns, its log handed out after each, and what it did in
/// each of them.
pub open spec fn tcp_run(m: TcpSenderModel, config: ClientConfig<String>, turns: Seq<TcpTurn>) -> (
    TcpSenderModel,
    Seq<TcpActionModel>,
)
    decreases turns.len(),
{
    if turns.len() == 0 {
        (m, seq![])
    } else {
        let (before, actions) = tcp_run(m, config, turns.drop_last());
        let turn = turns.last();
        let (next, action) = stream_step(before, config, turn.event, turn.now, turn.unix_us);
        (TcpSenderModel { log: seq![], ..next }, actions.push(action))
    }
}

/// What is written to the stream, or left out of it.
pub enum TcpItem {
    Hello,
    Chunk { frame_id: u64, index: u32 },
    Skip,
    Bye,
}

/// What was written to the stream, or left out of it.
pub open spec fn items_of(actions: Seq<TcpActionModel>) -> Seq<TcpItem>
    decreases actions.len(),
{
    if actions.len() == 0 {
        seq![]
    } else {
        let before = items_of(actions.drop_last());
        match actions.last() {
            TcpActionModel::Hello(_) => before.push(TcpItem::Hello),
            TcpActionModel::Write { chunk, .. } => before.push(
                TcpItem::Chunk { frame_id: chunk.frame_id, index: chunk.chunk_index },
            ),
            TcpActionModel::Skip => before.push(TcpItem::Skip),
            TcpActionModel::Bye => before.push(TcpItem::Bye),
            _ => before,
        }
    }
}

/// The first chunks of a frame.
pub open spec fn frame_items(frame_id: u64, count: int) -> Seq<TcpItem> {
    Seq::new(count as nat, |index: int| TcpItem::Chunk { frame_id, index: index as u32 })
}

/// Frames in their turn, each of them skipped or with all its `count` chunks.
pub open spec fn frames_items(skips: Seq<bool>, count: int) -> Seq<TcpItem>
    decreases skips.len(),
{
    if skips.len() == 0 {
        seq![]
    } else {
        frames_items(skips.drop_last(), count) + if skips.last() {
            seq![TcpItem::Skip]
        } else {
            frame_items((skips.len() - 1) as u64, count)
        }
    }
}

/// A whole stream: who is sending, the frames, and the end.
pub open spec fn stream_items(skips: Seq<bool>, count: int) -> Seq<TcpItem> {
    seq![TcpItem::Hello] + frames_items(skips, count) + seq![TcpItem::Bye]
}

/// Whether `skips` says of so many frames which are skipped, none where frames
/// are not to be dropped.
pub open spec fn are_skips(config: ClientConfig<String>, skips: Seq<bool>, frames: int) -> bool {
    &&& skips.len() == frames
    &&& forall|f: int| 0 <= f < frames && #[trigger] skips[f] ==> config.drop_when_window_full
}

/// Whether the action at `x` is right in itself: a greeting says who is sending,
/// a chunk is that of its frame and index, and room for it was asked just before
/// where it was not asked for the whole frame.
pub open spec fn is_right(config: ClientConfig<String>, actions: Seq<TcpActionModel>, x: int) -> bool {
    match actions[x] {
        TcpActionModel::Hello(hello) => hello == greeting(config),
        TcpActionModel::Write { chunk, payload } => {
            &&& chunk == outgoing_chunk(config, chunk.frame_id, chunk.chunk_index, chunk.sent_unix_us)
            &&& payload == payload_bytes(chunk.frame_id, chunk.chunk_index, chunk.payload_len as nat)
            &&& config.drop_when_window_full || (x > 0 && actions[x - 1] == (TcpActionModel::ReserveChunk {
                bytes: chunk.payload_len as u64,
            }))
        },
        TcpActionModel::Skip => x > 0 && actions[x - 1] is ReserveFrame,
        _ => true,
    }
}

/// What holds of a run at each of its turns.
spec fn tcp_run_holds(
    config: ClientConfig<String>,
    m: TcpSenderModel,
    actions: Seq<TcpActionModel>,
    skips: Seq<bool>,
) -> bool {
    let items = items_of(actions);
    let count = stream_chunks(config);
    let target = saturating_product(config.duration_sec as int, config.fps as int);
    let begun = seq![TcpItem::Hello] + frames_items(skips, count);
    &&& are_skips(config, skips, m.frames_sent as int)
    &&& m.frames_sent <= target
    &&& m.phase.in_frame() ==> m.frames_sent < target
    &&& forall|x: int| 0 <= x < actions.len() ==> #[trigger] is_right(config, actions, x)
    &&& match m.phase {
        TcpPhase::Start => items == Seq::<TcpItem>::empty() && m.frames_sent == 0,
        TcpPhase::Opened => items == seq![TcpItem::Hello] && m.frames_sent == 0,
        TcpPhase::Frame | TcpPhase::Skipped => items == begun,
        TcpPhase::Reserving => {
            &&& items == begun
            &&& m.next_chunk == 0
            &&& config.drop_when_window_full
            &&& actions.len() > 0 && actions.last() is ReserveFrame
        },
        TcpPhase::Next | TcpPhase::Sent { .. } => {
            &&& m.next_chunk <= count
            &&& items == begun + frame_items(m.frames_sent, m.next_chunk as int)
        },
        TcpPhase::Reserved { unix_us } => {
            &&& m.next_chunk < count
            &&& items == begun + frame_items(m.frames_sent, m.next_chunk as int)
            &&& actions.len() > 0 && actions.last() == (TcpActionModel::ReserveChunk {
                bytes: outgoing_chunk(config, m.frames_sent, m.next_chunk, unix_us).payload_len as u64,
            })
        },
        TcpPhase::Ended => m.frames_sent == target && items == stream_items(skips, count),
    }
}

/// How the items of a stream grow.
proof fn lemma_items_grow(skips: Seq<bool>, count: int, next_chunk: u32)
    requires
        skips.len() <= u64::MAX,
        0 < count <= u32::MAX,
        next_chunk <= count,
    ensures
        ({
            let begun = seq![TcpItem::Hello] + frames_items(skips, count);
            let frame_id = skips.len() as u64;
            let chunk = TcpItem::Chunk { frame_id, index: next_chunk };
            &&& begun + frame_items(frame_id, 0) == begun
            &&& (begun + frame_items(frame_id, next_chunk as int)).push(chunk) == begun + frame_items(
                frame_id,
                next_chunk + 1,
            )
            &&& begun.push(TcpItem::Bye) == stream_items(skips, count)
            &&& seq![TcpItem::Hello] + frames_items(skips.push(true), count) == begun.push(TcpItem::Skip)
            &&& seq![TcpItem::Hello] + frames_items(skips.push(false), count) == begun + frame_items(
                frame_id,
                count,
            )
            &&& skips.len() == 0 ==> begun == seq![TcpItem::Hello]
        }),
{
    let begun = seq![TcpItem::Hello] + frames_items(skips, count);
    let frame_id = skips.len() as u64;
    let chunk = TcpItem::Chunk { frame_id, index: next_chunk };
    assert(begun + frame_items(frame_id, 0) =~= begun);
    assert((begun + frame_items(frame_id, next_chunk as int)).push(chunk) =~= begun + frame_items(
        frame_id,
        next_chunk + 1,
    ));
    assert(begun.push(TcpItem::Bye) =~= stream_items(skips, count));
    assert(skips.push(true).drop_last() =~= skips);
    assert(skips.push(false).drop_last() =~= skips);
    assert(seq![TcpItem::Hello] + frames_items(skips.push(true), count) =~= begun.push(TcpItem::Skip));
    assert(seq![TcpItem::Hello] + frames_items(skips.push(false), count) =~= begun + frame_items(
        frame_id,
        count,
    ));
    assert(skips.len() == 0 ==> begun =~= seq![TcpItem::Hello]);
}

/// One more action that is right in itself keeps the others so.
proof fn lemma_right_on(
    config: ClientConfig<String>,
    turn: TcpTurn,
    m: TcpSenderModel,
    actions: Seq<TcpActionModel>,
    skips: Seq<bool>,
)
    requires
        tcp_run_holds(config, m, actions, skips),
    ensures
        ({
            let longer = actions.push(stream_step(m, config, turn.event, turn.now, turn.unix_us).1);
            forall|x: int| 0 <= x < longer.len() ==> #[trigger] is_right(config, longer, x)
        }),
{
    let longer = actions.push(stream_step(m, config, turn.event, turn.now, turn.unix_us).1);
    assert forall|x: int| 0 <= x < longer.len() implies #[trigger] is_right(config, longer, x) by {
        if x < actions.len() {
            assert(is_right(config, actions, x));
        }
    }
}

#[verifier::rlimit(30)]
proof fn lemma_tcp_turn(
    config: ClientConfig<String>,
    turn: TcpTurn,
    m: TcpSenderModel,
    actions: Seq<TcpActionModel>,
    skips: Seq<bool>,
) -> (after: Seq<bool>)
    requires
        client_fault(config) is None,
        tcp_run_holds(config, m, actions, skips),
    ensures
        ({
            let (next, action) = stream_step(m, config, turn.event, turn.now, turn.unix_us);
            tcp_run_holds(
                config,
                TcpSenderModel { log: seq![], ..next },
                actions.push(action),
                after,
            )
        }),
{
    let count = stream_chunks(config);
    lemma_ceil_div_bounds(config.frame_size as int, config.chunk_size as int);
    lemma_right_on(config, turn, m, actions, skips);
    let (next, action) = stream_step(m, config, turn.event, turn.now, turn.unix_us);
    let longer = actions.push(action);
    assert(longer.drop_last() =~= actions);
    let next_chunk: u32 = if m.phase is Frame || m.phase is Opened || m.next_chunk > count {
        0
    } else {
        m.next_chunk
    };
    lemma_items_grow(skips, count, next_chunk);
    assert(Seq::<TcpItem>::empty().push(TcpItem::Hello) =~= seq![TcpItem::Hello]);
    if next.frames_sent == m.frames_sent {
        skips
    } else {
        skips.push(action is Skip)
    }
}

proof fn lemma_tcp_run(config: ClientConfig<String>, turns: Seq<TcpTurn>) -> (skips: Seq<bool>)
    requires
        client_fault(config) is None,
    ensures
        ({
            let (m, actions) = tcp_run(fresh_stream(), config, turns);
            tcp_run_holds(config, m, actions, skips)
        }),
    decreases turns.len(),
{
    if turns.len() == 0 {
        assert(items_of(seq![]) =~= Seq::<TcpItem>::empty());
        seq![]
    } else {
        let (m, actions) = tcp_run(fresh_stream(), config, turns.drop_last());
        let skips = lemma_tcp_run(config, turns.drop_last());
        lemma_tcp_turn(config, turns.last(), m, actions, skips)
    }
}

/// What a TCP sender writes over a whole run, whatever the clocks show and
/// whichever frames are dropped: first who is sending, then each frame in its
/// turn, either skipped or with all its chunks in their order, then that the
/// stream ends. Frames are skipped only where that was asked for.
pub proof fn law_tcp_run_writes_whole_frames(config: ClientConfig<String>, turns: Seq<TcpTurn>)
    requires
        client_fault(config) is None,
        tcp_run(fresh_stream(), config, turns).0.phase is Ended,
    ensures
        exists|skips: Seq<bool>|
            #![trigger stream_items(skips, stream_chunks(config))]
            are_skips(
                config,
                skips,
                saturating_product(config.duration_sec as int, config.fps as int) as int,
            ) && items_of(tcp_run(fresh_stream(), config, turns).1) == stream_items(
                skips,
                stream_chunks(config),
            ),
{
    let skips = lemma_tcp_run(config, turns);
    assert(items_of(tcp_run(fresh_stream(), config, turns).1) == stream_items(skips, stream_chunks(config)));
}

/// At every point of a run a TCP sender has written a beginning of such a
/// stream: whole or skipped frames, and of the current frame its first chunks.
pub proof fn law_tcp_run_is_in_order(config: ClientConfig<String>, turns: Seq<TcpTurn>)
    requires
        client_fault(config) is None,
        tcp_run(fresh_stream(), config, turns).0.phase.in_frame(),
    ensures
        exists|skips: Seq<bool>|
            #![trigger frames_items(skips, stream_chunks(config))]
            are_skips(config, skips, tcp_run(fresh_stream(), config, turns).0.frames_sent as int) && items_of(
                tcp_run(fresh_stream(), config, turns).1,
            ) == seq![TcpItem::Hello] + frames_items(skips, stream_chunks(config)) + frame_items(
                tcp_run(fresh_stream(), config, turns).0.frames_sent,
                tcp_run(fresh_stream(), config, turns).0.next_chunk as int,
            ),
{
    let m = tcp_run(fresh_stream(), config, turns).0;
    let skips = lemma_tcp_run(config, turns);
    let begun = seq![TcpItem::Hello] + frames_items(skips, stream_chunks(config));
    assert(begun + frame_items(m.frames_sent, 0) =~= begun);
}

/// Every chunk that a TCP sender writes is that of its frame and index, with its
/// payload, and room was asked for it just before, unless it was asked for the
/// whole frame; a frame is skipped only in answer to that request.
pub proof fn law_tcp_run_asks_for_room(config: ClientConfig<String>, turns: Seq<TcpTurn>, x: int)
    requires
        client_fault(config) is None,
        0 <= x < turns.len(),
    ensures
        is_right(config, tcp_run(fresh_stream(), config, turns).1, x),
{
    lemma_tcp_run(config, turns);
    lemma_tcp_actions(config, turns);
}

proof fn lemma_tcp_actions(config: ClientConfig<String>, turns: Seq<TcpTurn>)
    ensures
        tcp_run(fresh_stream(), config, turns).1.len() == turns.len(),
    decreases turns.len(),
{
    if turns.len() > 0 {
        lemma_tcp_actions(config, turns.drop_last());
    }
}

} // verus!
