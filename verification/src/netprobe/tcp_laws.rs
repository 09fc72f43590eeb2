//! What holds of a frame on its way from the TCP sender to the TCP receiver and
//! of its acknowledgements on their way back.
use vstd::prelude::*;

use crate::netprobe::config::{client_fault, ClientConfig, ServerConfig};
use crate::netprobe::frames::{law_accept_chunk, lemma_count_bounds, FrameModel};
use crate::netprobe::tcp_client::{outgoing_chunk, FlowModel};
use crate::netprobe::tcp_server::{chunk_noted, message_handled, TcpModel};
use crate::netprobe::wire::{
    ceil_div, chunk_len, chunk_total, law_chunks_cover_frame, lemma_ceil_div_bounds, WireMessage,
};

verus! {

/// How many chunks the sender cuts a frame into.
pub open spec fn sent_chunks(client: ClientConfig<String>) -> int {
    ceil_div(client.frame_size as int, client.chunk_size as int)
}

/// The receiver and the sender's flow after the first `chunks` chunks of a frame,
/// each chunk taken and its acknowledgement returned in turn.
pub open spec fn exchanged(
    m: TcpModel,
    flow: FlowModel,
    server: ServerConfig<String>,
    client: ClientConfig<String>,
    frame_id: u64,
    chunks: nat,
    clock: Seq<u64>,
    unix_us: Seq<u64>,
) -> (TcpModel, FlowModel)
    decreases chunks,
{
    if chunks == 0 {
        (m, flow)
    } else {
        let index = (chunks - 1) as nat;
        let (before, flowed) = exchanged(m, flow, server, client, frame_id, index, clock, unix_us);
        let chunk = outgoing_chunk(client, frame_id, index as u32, unix_us[index as int]);
        let (next, ack, _) = message_handled(
            before,
            server,
            WireMessage::Chunk(chunk),
            clock[index as int],
            unix_us[index as int],
        );
        (
            next,
            match ack {
                Some(ack) => flowed.acknowledged(ack),
                None => flowed,
            },
        )
    }
}

/// The bytes of the first chunks grow with every chunk up to the frame size.
proof fn lemma_total_grows(frame_size: int, chunk_size: int, count: nat)
    requires
        0 < frame_size,
        0 < chunk_size,
        count <= ceil_div(frame_size, chunk_size),
    ensures
        0 <= chunk_total(frame_size, chunk_size, count) <= frame_size,
        count < ceil_div(frame_size, chunk_size) ==> chunk_total(frame_size, chunk_size, count)
            < frame_size,
    decreases ceil_div(frame_size, chunk_size) - count,
{
    law_chunks_cover_frame(frame_size, chunk_size);
    lemma_total_positive(frame_size, chunk_size, count);
    if count < ceil_div(frame_size, chunk_size) {
        assert(0 < chunk_len(frame_size, chunk_size, count as int));
        lemma_total_grows(frame_size, chunk_size, count + 1);
    }
}

proof fn lemma_total_positive(frame_size: int, chunk_size: int, count: nat)
    requires
        0 < frame_size,
        0 < chunk_size,
        count <= ceil_div(frame_size, chunk_size),
    ensures
        0 <= chunk_total(frame_size, chunk_size, count),
    decreases count,
{
    law_chunks_cover_frame(frame_size, chunk_size);
    if count > 0 {
        assert(0 < chunk_len(frame_size, chunk_size, count - 1));
        lemma_total_positive(frame_size, chunk_size, (count - 1) as nat);
    }
}

/// What receiver and flow know after some, but not all, chunks of a frame.
spec fn midway(
    m: TcpModel,
    flow: FlowModel,
    client: ClientConfig<String>,
    frame_id: u64,
    chunks: nat,
    start: FlowModel,
) -> bool {
    let frame = m.frames[frame_id];
    let total = chunk_total(client.frame_size as int, client.chunk_size as int, chunks);
    let acked = flow.acked_of(frame_id);
    &&& m.wf()
    &&& m.frames.contains_key(frame_id) <==> chunks > 0
    &&& chunks > 0 ==> {
        &&& frame.chunk_count == sent_chunks(client)
        &&& frame.frame_size == client.frame_size
        &&& frame.bytes_seen == total
        &&& forall|i: int| 0 <= i < frame.chunk_count ==> frame.seen[i] == (i < chunks)
    }
    &&& acked <= total
    &&& flow.inflight_bytes == start.inflight_bytes - acked
    &&& flow.acked_bytes == start.acked_bytes + acked
    &&& flow.acked_frames == start.acked_frames
    &&& flow.acked_frame_bytes.remove(frame_id) == start.acked_frame_bytes
}

proof fn lemma_chunk_exchanged(
    m: TcpModel,
    flow: FlowModel,
    server: ServerConfig<String>,
    client: ClientConfig<String>,
    frame_id: u64,
    chunks: nat,
    now: u64,
    unix_us: u64,
    start: FlowModel,
)
    requires
        client_fault(client) is None,
        chunks < sent_chunks(client),
        midway(m, flow, client, frame_id, chunks, start),
        start.inflight_bytes >= client.frame_size,
        start.acked_bytes + client.frame_size <= u64::MAX,
        start.acked_frames < u64::MAX,
    ensures
        ({
            let chunk = outgoing_chunk(client, frame_id, chunks as u32, unix_us);
            let (next, ack, _) = message_handled(m, server, WireMessage::Chunk(chunk), now, unix_us);
            let flowed = match ack {
                Some(ack) => flow.acknowledged(ack),
                None => flow,
            };
            if chunks + 1 < sent_chunks(client) {
                midway(next, flowed, client, frame_id, chunks + 1, start)
            } else {
                &&& !next.frames.contains_key(frame_id)
                &&& ack matches Some(ack) && ack.complete && ack.bytes_seen == client.frame_size
                &&& flowed.inflight_bytes == start.inflight_bytes - client.frame_size
                &&& flowed.acked_bytes == start.acked_bytes + client.frame_size
                &&& flowed.acked_frames == start.acked_frames + 1
                &&& flowed.acked_frame_bytes == start.acked_frame_bytes
            }
        }),
{
    let frame_size = client.frame_size as int;
    let chunk_size = client.chunk_size as int;
    let count = sent_chunks(client);
    lemma_ceil_div_bounds(frame_size, chunk_size);
    law_chunks_cover_frame(frame_size, chunk_size);
    lemma_total_grows(frame_size, chunk_size, chunks);
    lemma_total_grows(frame_size, chunk_size, chunks + 1);
    assert(0 < chunk_len(frame_size, chunk_size, chunks as int) <= chunk_size);
    let chunk = outgoing_chunk(client, frame_id, chunks as u32, unix_us);
    let (next, ack, _) = message_handled(m, server, WireMessage::Chunk(chunk), now, unix_us);
    let flowed = match ack {
        Some(ack) => flow.acknowledged(ack),
        None => flow,
    };
    let noted = chunk_noted(m, server.verbose_chunks, chunk, now);
    let frame = noted.frames[frame_id];
    let fresh = FrameModel::opened(0, chunk.frame_size, chunk.chunk_count, chunk.sent_unix_us, now);
    lemma_count_bounds(fresh.seen);
    assert(noted.wf());
    let total = chunk_total(frame_size, chunk_size, chunks);
    assert(frame.bytes_seen == total);
    assert(forall|i: int| 0 <= i < frame.chunk_count ==> frame.seen[i] == (i < chunks));
    law_accept_chunk(frame, chunks as int, chunk.payload_len);
    let after = frame.accepted(chunks as int, chunk.payload_len);
    assert(forall|i: int| 0 <= i < after.chunk_count ==> after.seen[i] == (i < chunks + 1));
    lemma_count_bounds(after.seen);
    let sum = chunk_total(frame_size, chunk_size, chunks + 1);
    assert(after.bytes_seen == sum);
    if chunks + 1 < count {
        assert(!after.seen[count - 1]);
        assert(!after.complete());
        assert(next.frames == noted.frames.insert(frame_id, after));
        assert(flowed.acked_frame_bytes.remove(frame_id) =~= start.acked_frame_bytes);
    } else {
        assert(after.complete());
        assert(flowed.acked_frame_bytes =~= start.acked_frame_bytes);
    }
}

proof fn lemma_exchange(
    m: TcpModel,
    flow: FlowModel,
    server: ServerConfig<String>,
    client: ClientConfig<String>,
    frame_id: u64,
    chunks: nat,
    clock: Seq<u64>,
    unix_us: Seq<u64>,
)
    requires
        client_fault(client) is None,
        m.wf(),
        !m.frames.contains_key(frame_id),
        !flow.acked_frame_bytes.contains_key(frame_id),
        flow.inflight_bytes >= client.frame_size,
        flow.acked_bytes + client.frame_size <= u64::MAX,
        flow.acked_frames < u64::MAX,
        chunks < sent_chunks(client),
    ensures
        ({
            let (next, flowed) = exchanged(m, flow, server, client, frame_id, chunks, clock, unix_us);
            midway(next, flowed, client, frame_id, chunks, flow)
        }),
    decreases chunks,
{
    if chunks == 0 {
        assert(flow.acked_frame_bytes.remove(frame_id) =~= flow.acked_frame_bytes);
    } else {
        let index = (chunks - 1) as nat;
        lemma_exchange(m, flow, server, client, frame_id, index, clock, unix_us);
        let (before, flowed) = exchanged(m, flow, server, client, frame_id, index, clock, unix_us);
        lemma_chunk_exchanged(
            before,
            flowed,
            server,
            client,
            frame_id,
            index,
            clock[index as int],
            unix_us[index as int],
            flow,
        );
    }
}

/// A frame that has arrived frees the room that it took in the window: after all
/// its chunks have been taken and acknowledged, in however many steps, exactly
/// its bytes are no longer on their way, the frame is counted as acknowledged
/// once, and the receiver has forgotten it.
pub proof fn law_arrived_frame_frees_its_window(
    m: TcpModel,
    flow: FlowModel,
    server: ServerConfig<String>,
    client: ClientConfig<String>,
    frame_id: u64,
    clock: Seq<u64>,
    unix_us: Seq<u64>,
)
    requires
        client_fault(client) is None,
        m.wf(),
        !m.frames.contains_key(frame_id),
        !flow.acked_frame_bytes.contains_key(frame_id),
        flow.inflight_bytes >= client.frame_size,
        flow.acked_bytes + client.frame_size <= u64::MAX,
        flow.acked_frames < u64::MAX,
    ensures
        ({
            let (next, flowed) = exchanged(
                m,
                flow,
                server,
                client,
                frame_id,
                sent_chunks(client) as nat,
                clock,
                unix_us,
            );
            &&& !next.frames.contains_key(frame_id)
            &&& flowed == (FlowModel {
                inflight_bytes: (flow.inflight_bytes - client.frame_size) as u64,
                acked_bytes: (flow.acked_bytes + client.frame_size) as u64,
                acked_frames: (flow.acked_frames + 1) as u64,
                ..flow
            })
        }),
{
    lemma_ceil_div_bounds(client.frame_size as int, client.chunk_size as int);
    let index = (sent_chunks(client) - 1) as nat;
    lemma_exchange(m, flow, server, client, frame_id, index, clock, unix_us);
    let (before, flowed) = exchanged(m, flow, server, client, frame_id, index, clock, unix_us);
    lemma_chunk_exchanged(
        before,
        flowed,
        server,
        client,
        frame_id,
        index,
        clock[index as int],
        unix_us[index as int],
        flow,
    );
}

} // verus!
