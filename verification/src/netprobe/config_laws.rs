//! What the options of the network probe mean.
use vstd::prelude::*;
use vstd::string::*;

use crate::netprobe::config::{
    boolean, client_command_line, client_defaults, client_fault, client_option, client_options,
    command_line, law_send_mode_names, server_command_line, server_defaults, server_option,
    server_options, udp_client_command_line, udp_client_defaults, udp_client_fault, udp_client_option,
    udp_client_options, udp_server_command_line, udp_server_defaults, udp_server_fault,
    udp_server_option, udp_server_options, ClientConfig, Command, SendMode, ServerConfig,
    UdpClientConfig, UdpServerConfig,
};
use crate::parse::law_decimal_reads_back;
use crate::text::decimal;

verus! {

// ---------------------------------------------------------------------------
// Validity
// ---------------------------------------------------------------------------

/// A TCP client can run exactly if rate and sizes are not zero, a chunk fits into
/// a record of sixteen mebibytes, and in window mode the window holds a chunk;
/// frames are dropped only in window mode, where the window holds a frame.
pub proof fn law_valid_client<S>(config: ClientConfig<S>)
    ensures
        client_fault(config) is None <==> {
            &&& config.fps > 0
            &&& config.frame_size > 0
            &&& 0 < config.chunk_size <= 16_777_183
            &&& config.mode is Window ==> config.window_bytes >= config.chunk_size
            &&& config.drop_when_window_full ==> config.mode is Window && config.window_bytes
                >= config.frame_size
        },
{
}

/// A UDP server can run exactly if frames have time to arrive, requests have an
/// interval, and a request names at least one chunk and fits into one datagram.
pub proof fn law_valid_udp_server<S>(config: UdpServerConfig<S>)
    ensures
        udp_server_fault(config) is None <==> {
            &&& config.frame_timeout_ms > 0
            &&& config.nack_interval_ms > 0
            &&& 0 < config.nack_max_chunks
            &&& 47 + 4 * config.nack_max_chunks <= 65_507
        },
{
}

/// A UDP client can run exactly if rate and sizes are not zero and a packet fits
/// into one datagram.
pub proof fn law_valid_udp_client<S>(config: UdpClientConfig<S>)
    ensures
        udp_client_fault(config) is None <==> {
            &&& config.fps > 0
            &&& config.frame_size > 0
            &&& 0 < config.payload_size
            &&& 47 + config.payload_size <= 65_507
        },
{
}

/// Whether a command line is understood as a configuration.
pub open spec fn asks_for<C>(line: Result<C, Seq<char>>, config: C) -> bool {
    line == Ok::<C, Seq<char>>(config)
}

// ---------------------------------------------------------------------------
// The TCP server's options
// ---------------------------------------------------------------------------

proof fn lemma_server_prefix(
    state: ServerConfig<Seq<char>>,
    args: Seq<Seq<char>>,
    more: Seq<Seq<char>>,
    at: int,
)
    requires
        0 <= at <= args.len(),
        server_options(state, args, at) is Ok,
    ensures
        server_options(state, args + more, at) == server_options(
            server_options(state, args, at)->Ok_0,
            args + more,
            args.len() as int,
        ),
    decreases args.len() - at,
{
    let all = args + more;
    if at < args.len() {
        assert(all[at] == args[at]);
        if at + 1 < args.len() {
            assert(all[at + 1] == args[at + 1]);
        }
        assert(server_option(state, all, at) == server_option(state, args, at));
        let (next, rest) = server_option(state, args, at)->Ok_0;
        assert(at < rest <= args.len());
        lemma_server_prefix(next, args, more, rest);
    }
}

proof fn lemma_server_added(
    args: Seq<Seq<char>>,
    before: ServerConfig<Seq<char>>,
    option: Seq<char>,
    value: Seq<char>,
    next: ServerConfig<Seq<char>>,
)
    requires
        asks_for(server_options(server_defaults(), args, 0), before),
        asks_for(server_option(before, seq![option, value], 0), (next, 2)),
    ensures
        asks_for(server_options(server_defaults(), args + seq![option, value], 0), next),
{
    let more = seq![option, value];
    let all = args + more;
    let end = args.len() as int;
    lemma_server_prefix(server_defaults(), args, more, 0);
    assert(all[end] == option && more[0] == option);
    assert(all[end + 1] == value && more[1] == value);
    assert(asks_for(server_option(before, all, end), (next, end + 2)));
    assert(asks_for(server_options(next, all, end + 2), next));
}

proof fn lemma_server_flagged(
    args: Seq<Seq<char>>,
    before: ServerConfig<Seq<char>>,
    option: Seq<char>,
    next: ServerConfig<Seq<char>>,
)
    requires
        asks_for(server_options(server_defaults(), args, 0), before),
        asks_for(server_option(before, seq![option], 0), (next, 1)),
    ensures
        asks_for(server_options(server_defaults(), args + seq![option], 0), next),
{
    let more = seq![option];
    let all = args + more;
    let end = args.len() as int;
    lemma_server_prefix(server_defaults(), args, more, 0);
    assert(all[end] == option && more[0] == option);
    assert(asks_for(server_option(before, all, end), (next, end + 1)));
    assert(asks_for(server_options(next, all, end + 1), next));
}

/// On the command line of a TCP server, an option with a value at the end sets what
/// it names and leaves everything else as the line before it has it.
#[verifier::rlimit(60)]
pub proof fn law_server_values_are_added(
    args: Seq<Seq<char>>,
    before: ServerConfig<Seq<char>>,
    text: Seq<char>,
    number: u64,
    count: u32,
)
    requires
        asks_for(server_command_line(args), before),
    ensures
        asks_for(
            server_command_line(args + seq!["--bind"@, text]),
            ServerConfig { bind: text, ..before },
        ),
        asks_for(
            server_command_line(args + seq!["--log"@, text]),
            ServerConfig { log_path: Some(text), ..before },
        ),
        asks_for(
            server_command_line(args + seq!["--ack-every-chunks"@, decimal(count as nat)]),
            ServerConfig { ack_every_chunks: count, ..before },
        ),
        asks_for(
            server_command_line(args + seq!["--read-timeout-ms"@, decimal(number as nat)]),
            ServerConfig { read_timeout_ms: number, ..before },
        ),
        asks_for(
            server_command_line(args + seq!["--pause-read-after-ms"@, decimal(number as nat)]),
            ServerConfig { pause_read_after_ms: number, ..before },
        ),
        asks_for(
            server_command_line(args + seq!["--pause-read-duration-ms"@, decimal(number as nat)]),
            ServerConfig { pause_read_duration_ms: number, ..before },
        ),
        asks_for(
            server_command_line(args + seq!["--pause-read-repeat-ms"@, decimal(number as nat)]),
            ServerConfig { pause_read_repeat_ms: number, ..before },
        ),
{
    reveal_strlit("--bind");
    reveal_strlit("--log");
    reveal_strlit("--ack-every-chunks");
    reveal_strlit("--read-timeout-ms");
    reveal_strlit("--pause-read-after-ms");
    reveal_strlit("--pause-read-duration-ms");
    reveal_strlit("--pause-read-repeat-ms");
    reveal_strlit("--verbose-chunks");
    law_decimal_reads_back(number as nat, u64::MAX as nat);
    law_decimal_reads_back(count as nat, u32::MAX as nat);
    lemma_server_added(
        args,
        before,
        "--bind"@,
        text,
        ServerConfig { bind: text, ..before },
    );
    lemma_server_added(
        args,
        before,
        "--log"@,
        text,
        ServerConfig { log_path: Some(text), ..before },
    );
    lemma_server_added(
        args,
        before,
        "--ack-every-chunks"@,
        decimal(count as nat),
        ServerConfig { ack_every_chunks: count, ..before },
    );
    lemma_server_added(
        args,
        before,
        "--read-timeout-ms"@,
        decimal(number as nat),
        ServerConfig { read_timeout_ms: number, ..before },
    );
    lemma_server_added(
        args,
        before,
        "--pause-read-after-ms"@,
        decimal(number as nat),
        ServerConfig { pause_read_after_ms: number, ..before },
    );
    lemma_server_added(
        args,
        before,
        "--pause-read-duration-ms"@,
        decimal(number as nat),
        ServerConfig { pause_read_duration_ms: number, ..before },
    );
    lemma_server_added(
        args,
        before,
        "--pause-read-repeat-ms"@,
        decimal(number as nat),
        ServerConfig { pause_read_repeat_ms: number, ..before },
    );
}

/// On the command line of a TCP server, a switch at the end sets what it names and
/// leaves everything else as the line before it has it.
pub proof fn law_server_switches_are_added(
    args: Seq<Seq<char>>,
    before: ServerConfig<Seq<char>>,
)
    requires
        asks_for(server_command_line(args), before),
    ensures
        asks_for(
            server_command_line(args + seq!["--verbose-chunks"@]),
            ServerConfig { verbose_chunks: true, ..before },
        ),
{
    reveal_strlit("--bind");
    reveal_strlit("--log");
    reveal_strlit("--ack-every-chunks");
    reveal_strlit("--read-timeout-ms");
    reveal_strlit("--pause-read-after-ms");
    reveal_strlit("--pause-read-duration-ms");
    reveal_strlit("--pause-read-repeat-ms");
    reveal_strlit("--verbose-chunks");
    lemma_server_flagged(
        args,
        before,
        "--verbose-chunks"@,
        ServerConfig { verbose_chunks: true, ..before },
    );
}

// ---------------------------------------------------------------------------
// The TCP client's options
// ---------------------------------------------------------------------------

proof fn lemma_client_prefix(
    state: (ClientConfig<Seq<char>>, Option<Seq<char>>),
    args: Seq<Seq<char>>,
    more: Seq<Seq<char>>,
    at: int,
)
    requires
        0 <= at <= args.len(),
        client_options(state, args, at) is Ok,
    ensures
        client_options(state, args + more, at) == client_options(
            client_options(state, args, at)->Ok_0,
            args + more,
            args.len() as int,
        ),
    decreases args.len() - at,
{
    let all = args + more;
    if at < args.len() {
        assert(all[at] == args[at]);
        if at + 1 < args.len() {
            assert(all[at + 1] == args[at + 1]);
        }
        assert(client_option(state, all, at) == client_option(state, args, at));
        let (next, rest) = client_option(state, args, at)->Ok_0;
        assert(at < rest <= args.len());
        lemma_client_prefix(next, args, more, rest);
    }
}

proof fn lemma_client_added(
    args: Seq<Seq<char>>,
    before: (ClientConfig<Seq<char>>, Option<Seq<char>>),
    option: Seq<char>,
    value: Seq<char>,
    next: (ClientConfig<Seq<char>>, Option<Seq<char>>),
)
    requires
        asks_for(client_options((client_defaults(), None), args, 0), before),
        asks_for(client_option(before, seq![option, value], 0), (next, 2)),
    ensures
        asks_for(client_options((client_defaults(), None), args + seq![option, value], 0), next),
{
    let more = seq![option, value];
    let all = args + more;
    let end = args.len() as int;
    lemma_client_prefix((client_defaults(), None), args, more, 0);
    assert(all[end] == option && more[0] == option);
    assert(all[end + 1] == value && more[1] == value);
    assert(asks_for(client_option(before, all, end), (next, end + 2)));
    assert(asks_for(client_options(next, all, end + 2), next));
}

proof fn lemma_client_flagged(
    args: Seq<Seq<char>>,
    before: (ClientConfig<Seq<char>>, Option<Seq<char>>),
    option: Seq<char>,
    next: (ClientConfig<Seq<char>>, Option<Seq<char>>),
)
    requires
        asks_for(client_options((client_defaults(), None), args, 0), before),
        asks_for(client_option(before, seq![option], 0), (next, 1)),
    ensures
        asks_for(client_options((client_defaults(), None), args + seq![option], 0), next),
{
    let more = seq![option];
    let all = args + more;
    let end = args.len() as int;
    lemma_client_prefix((client_defaults(), None), args, more, 0);
    assert(all[end] == option && more[0] == option);
    assert(asks_for(client_option(before, all, end), (next, end + 1)));
    assert(asks_for(client_options(next, all, end + 1), next));
}

/// On the command line of a TCP client, an option with a value at the end sets what
/// it names and leaves everything else as the line before it has it.
#[verifier::rlimit(60)]
pub proof fn law_client_values_are_added(
    args: Seq<Seq<char>>,
    before: ClientConfig<Seq<char>>,
    text: Seq<char>,
    number: u64,
    count: u32,
)
    requires
        asks_for(client_command_line(args), before),
    ensures
        asks_for(
            client_command_line(args + seq!["--connect"@, text]),
            ClientConfig { connect: text, ..before },
        ),
        asks_for(
            client_command_line(args + seq!["--log"@, text]),
            ClientConfig { log_path: Some(text), ..before },
        ),
        asks_for(
            client_command_line(args + seq!["--duration-sec"@, decimal(number as nat)]),
            ClientConfig { duration_sec: number, ..before },
        ),
        asks_for(
            client_command_line(args + seq!["--fps"@, decimal(count as nat)]),
            ClientConfig { fps: count, ..before },
        ),
        asks_for(
            client_command_line(args + seq!["--frame-size"@, decimal(count as nat)]),
            ClientConfig { frame_size: count, ..before },
        ),
        asks_for(
            client_command_line(args + seq!["--chunk-size"@, decimal(count as nat)]),
            ClientConfig { chunk_size: count, ..before },
        ),
        asks_for(
            client_command_line(args + seq!["--window-bytes"@, decimal(number as nat)]),
            ClientConfig { window_bytes: number, ..before },
        ),
        asks_for(
            client_command_line(args + seq!["--window-wait-ms"@, decimal(number as nat)]),
            ClientConfig { window_wait_ms: number, ..before },
        ),
        asks_for(
            client_command_line(args + seq!["--pace-every"@, decimal(count as nat)]),
            ClientConfig { pace_every: count, ..before },
        ),
        asks_for(
            client_command_line(args + seq!["--pace-us"@, decimal(number as nat)]),
            ClientConfig { pace_us: number, ..before },
        ),
        asks_for(
            client_command_line(args + seq!["--io-timeout-ms"@, decimal(number as nat)]),
            ClientConfig { io_timeout_ms: number, ..before },
        ),
{
    reveal_strlit("--connect");
    reveal_strlit("--log");
    reveal_strlit("--duration-sec");
    reveal_strlit("--fps");
    reveal_strlit("--frame-size");
    reveal_strlit("--chunk-size");
    reveal_strlit("--window-bytes");
    reveal_strlit("--window-wait-ms");
    reveal_strlit("--pace-every");
    reveal_strlit("--pace-us");
    reveal_strlit("--io-timeout-ms");
    reveal_strlit("--drop-when-window-full");
    reveal_strlit("--verbose-chunks");
    reveal_strlit("--mode");
    assert("--connect"@[2] == 'c');
    assert("--log"@[2] == 'l');
    assert("--duration-sec"@[2] == 'd');
    assert("--fps"@[2] == 'f');
    assert("--frame-size"@[2] == 'f');
    assert("--chunk-size"@[2] == 'c');
    assert("--window-bytes"@[2] == 'w');
    assert("--window-wait-ms"@[2] == 'w');
    assert("--pace-every"@[2] == 'p');
    assert("--pace-us"@[2] == 'p');
    assert("--verbose-chunks"@[2] == 'v');
    law_decimal_reads_back(number as nat, u64::MAX as nat);
    law_decimal_reads_back(count as nat, u32::MAX as nat);
    let (so_far, given) = client_options((client_defaults(), None), args, 0)->Ok_0;
    lemma_client_added(
        args,
        (so_far, given),
        "--connect"@,
        text,
        (so_far, Some(text)),
    );
    lemma_client_added(
        args,
        (so_far, given),
        "--log"@,
        text,
        (ClientConfig { log_path: Some(text), ..so_far }, given),
    );
    lemma_client_added(
        args,
        (so_far, given),
        "--duration-sec"@,
        decimal(number as nat),
        (ClientConfig { duration_sec: number, ..so_far }, given),
    );
    lemma_client_added(
        args,
        (so_far, given),
        "--fps"@,
        decimal(count as nat),
        (ClientConfig { fps: count, ..so_far }, given),
    );
    lemma_client_added(
        args,
        (so_far, given),
        "--frame-size"@,
        decimal(count as nat),
        (ClientConfig { frame_size: count, ..so_far }, given),
    );
    lemma_client_added(
        args,
        (so_far, given),
        "--chunk-size"@,
        decimal(count as nat),
        (ClientConfig { chunk_size: count, ..so_far }, given),
    );
    lemma_client_added(
        args,
        (so_far, given),
        "--window-bytes"@,
        decimal(number as nat),
        (ClientConfig { window_bytes: number, ..so_far }, given),
    );
    lemma_client_added(
        args,
        (so_far, given),
        "--window-wait-ms"@,
        decimal(number as nat),
        (ClientConfig { window_wait_ms: number, ..so_far }, given),
    );
    lemma_client_added(
        args,
        (so_far, given),
        "--pace-every"@,
        decimal(count as nat),
        (ClientConfig { pace_every: count, ..so_far }, given),
    );
    lemma_client_added(
        args,
        (so_far, given),
        "--pace-us"@,
        decimal(number as nat),
        (ClientConfig { pace_us: number, ..so_far }, given),
    );
    lemma_client_added(
        args,
        (so_far, given),
        "--io-timeout-ms"@,
        decimal(number as nat),
        (ClientConfig { io_timeout_ms: number, ..so_far }, given),
    );
}

/// On the command line of a TCP client, a switch at the end sets what it names and
/// leaves everything else as the line before it has it.
#[verifier::rlimit(60)]
pub proof fn law_client_switches_are_added(
    args: Seq<Seq<char>>,
    before: ClientConfig<Seq<char>>,
)
    requires
        asks_for(client_command_line(args), before),
    ensures
        asks_for(
            client_command_line(args + seq!["--drop-when-window-full"@]),
            ClientConfig { drop_when_window_full: true, ..before },
        ),
        asks_for(
            client_command_line(args + seq!["--verbose-chunks"@]),
            ClientConfig { verbose_chunks: true, ..before },
        ),
{
    reveal_strlit("--connect");
    reveal_strlit("--log");
    reveal_strlit("--duration-sec");
    reveal_strlit("--fps");
    reveal_strlit("--frame-size");
    reveal_strlit("--chunk-size");
    reveal_strlit("--window-bytes");
    reveal_strlit("--window-wait-ms");
    reveal_strlit("--pace-every");
    reveal_strlit("--pace-us");
    reveal_strlit("--io-timeout-ms");
    reveal_strlit("--drop-when-window-full");
    reveal_strlit("--verbose-chunks");
    reveal_strlit("--mode");
    assert("--connect"@[2] == 'c');
    assert("--log"@[2] == 'l');
    assert("--duration-sec"@[2] == 'd');
    assert("--fps"@[2] == 'f');
    assert("--frame-size"@[2] == 'f');
    assert("--chunk-size"@[2] == 'c');
    assert("--window-bytes"@[2] == 'w');
    assert("--window-wait-ms"@[2] == 'w');
    assert("--pace-every"@[2] == 'p');
    assert("--pace-us"@[2] == 'p');
    assert("--verbose-chunks"@[2] == 'v');
    let (so_far, given) = client_options((client_defaults(), None), args, 0)->Ok_0;
    lemma_client_flagged(
        args,
        (so_far, given),
        "--drop-when-window-full"@,
        (ClientConfig { drop_when_window_full: true, ..so_far }, given),
    );
    lemma_client_flagged(
        args,
        (so_far, given),
        "--verbose-chunks"@,
        (ClientConfig { verbose_chunks: true, ..so_far }, given),
    );
}

// ---------------------------------------------------------------------------
// The UDP server's options
// ---------------------------------------------------------------------------

proof fn lemma_udp_server_prefix(
    state: UdpServerConfig<Seq<char>>,
    args: Seq<Seq<char>>,
    more: Seq<Seq<char>>,
    at: int,
)
    requires
        0 <= at <= args.len(),
        udp_server_options(state, args, at) is Ok,
    ensures
        udp_server_options(state, args + more, at) == udp_server_options(
            udp_server_options(state, args, at)->Ok_0,
            args + more,
            args.len() as int,
        ),
    decreases args.len() - at,
{
    let all = args + more;
    if at < args.len() {
        assert(all[at] == args[at]);
        if at + 1 < args.len() {
            assert(all[at + 1] == args[at + 1]);
        }
        assert(udp_server_option(state, all, at) == udp_server_option(state, args, at));
        let (next, rest) = udp_server_option(state, args, at)->Ok_0;
        assert(at < rest <= args.len());
        lemma_udp_server_prefix(next, args, more, rest);
    }
}

proof fn lemma_udp_server_added(
    args: Seq<Seq<char>>,
    before: UdpServerConfig<Seq<char>>,
    option: Seq<char>,
    value: Seq<char>,
    next: UdpServerConfig<Seq<char>>,
)
    requires
        asks_for(udp_server_options(udp_server_defaults(), args, 0), before),
        asks_for(udp_server_option(before, seq![option, value], 0), (next, 2)),
    ensures
        asks_for(udp_server_options(udp_server_defaults(), args + seq![option, value], 0), next),
{
    let more = seq![option, value];
    let all = args + more;
    let end = args.len() as int;
    lemma_udp_server_prefix(udp_server_defaults(), args, more, 0);
    assert(all[end] == option && more[0] == option);
    assert(all[end + 1] == value && more[1] == value);
    assert(asks_for(udp_server_option(before, all, end), (next, end + 2)));
    assert(asks_for(udp_server_options(next, all, end + 2), next));
}

proof fn lemma_udp_server_flagged(
    args: Seq<Seq<char>>,
    before: UdpServerConfig<Seq<char>>,
    option: Seq<char>,
    next: UdpServerConfig<Seq<char>>,
)
    requires
        asks_for(udp_server_options(udp_server_defaults(), args, 0), before),
        asks_for(udp_server_option(before, seq![option], 0), (next, 1)),
    ensures
        asks_for(udp_server_options(udp_server_defaults(), args + seq![option], 0), next),
{
    let more = seq![option];
    let all = args + more;
    let end = args.len() as int;
    lemma_udp_server_prefix(udp_server_defaults(), args, more, 0);
    assert(all[end] == option && more[0] == option);
    assert(asks_for(udp_server_option(before, all, end), (next, end + 1)));
    assert(asks_for(udp_server_options(next, all, end + 1), next));
}

/// On the command line of a UDP server, an option with a value at the end sets what
/// it names and leaves everything else as the line before it has it.
#[verifier::rlimit(60)]
pub proof fn law_udp_server_values_are_added(
    args: Seq<Seq<char>>,
    before: UdpServerConfig<Seq<char>>,
    text: Seq<char>,
    number: u64,
    count: u32,
)
    requires
        asks_for(udp_server_command_line(args), before),
    ensures
        asks_for(
            udp_server_command_line(args + seq!["--bind"@, text]),
            UdpServerConfig { bind: text, ..before },
        ),
        asks_for(
            udp_server_command_line(args + seq!["--log"@, text]),
            UdpServerConfig { log_path: Some(text), ..before },
        ),
        asks_for(
            udp_server_command_line(args + seq!["--read-timeout-ms"@, decimal(number as nat)]),
            UdpServerConfig { read_timeout_ms: number, ..before },
        ),
        asks_for(
            udp_server_command_line(args + seq!["--frame-timeout-ms"@, decimal(number as nat)]),
            UdpServerConfig { frame_timeout_ms: number, ..before },
        ),
        asks_for(
            udp_server_command_line(args + seq!["--drop-every"@, decimal(number as nat)]),
            UdpServerConfig { drop_every: number, ..before },
        ),
        asks_for(
            udp_server_command_line(args + seq!["--drop-initial-frame-video-every"@, decimal(number as nat)]),
            UdpServerConfig { drop_initial_frame_video_every: number, ..before },
        ),
        asks_for(
            udp_server_command_line(args + seq!["--nack-delay-ms"@, decimal(number as nat)]),
            UdpServerConfig { nack_delay_ms: number, ..before },
        ),
        asks_for(
            udp_server_command_line(args + seq!["--nack-interval-ms"@, decimal(number as nat)]),
            UdpServerConfig { nack_interval_ms: number, ..before },
        ),
        asks_for(
            udp_server_command_line(args + seq!["--nack-rounds"@, decimal(count as nat)]),
            UdpServerConfig { nack_rounds: count, ..before },
        ),
        asks_for(
            udp_server_command_line(args + seq!["--nack-max-chunks"@, decimal(count as nat)]),
            UdpServerConfig { nack_max_chunks: count, ..before },
        ),
        asks_for(
            udp_server_command_line(args + seq!["--status-interval-ms"@, decimal(number as nat)]),
            UdpServerConfig { status_interval_ms: number, ..before },
        ),
{
    reveal_strlit("--bind");
    reveal_strlit("--log");
    reveal_strlit("--read-timeout-ms");
    reveal_strlit("--frame-timeout-ms");
    reveal_strlit("--drop-every");
    reveal_strlit("--drop-initial-frame-video-every");
    reveal_strlit("--nack-delay-ms");
    reveal_strlit("--nack-interval-ms");
    reveal_strlit("--nack-rounds");
    reveal_strlit("--nack-max-chunks");
    reveal_strlit("--status-interval-ms");
    reveal_strlit("--verbose-chunks");
    reveal_strlit("--quiet-frames");
    reveal_strlit("--nack-empty-frames");
    assert("--read-timeout-ms"@[2] == 'r');
    assert("--frame-timeout-ms"@[2] == 'f');
    assert("--nack-interval-ms"@[2] == 'n');
    assert("--nack-max-chunks"@[2] == 'n');
    law_decimal_reads_back(number as nat, u64::MAX as nat);
    law_decimal_reads_back(count as nat, u32::MAX as nat);
    lemma_udp_server_added(
        args,
        before,
        "--bind"@,
        text,
        UdpServerConfig { bind: text, ..before },
    );
    lemma_udp_server_added(
        args,
        before,
        "--log"@,
        text,
        UdpServerConfig { log_path: Some(text), ..before },
    );
    lemma_udp_server_added(
        args,
        before,
        "--read-timeout-ms"@,
        decimal(number as nat),
        UdpServerConfig { read_timeout_ms: number, ..before },
    );
    lemma_udp_server_added(
        args,
        before,
        "--frame-timeout-ms"@,
        decimal(number as nat),
        UdpServerConfig { frame_timeout_ms: number, ..before },
    );
    lemma_udp_server_added(
        args,
        before,
        "--drop-every"@,
        decimal(number as nat),
        UdpServerConfig { drop_every: number, ..before },
    );
    lemma_udp_server_added(
        args,
        before,
        "--drop-initial-frame-video-every"@,
        decimal(number as nat),
        UdpServerConfig { drop_initial_frame_video_every: number, ..before },
    );
    lemma_udp_server_added(
        args,
        before,
        "--nack-delay-ms"@,
        decimal(number as nat),
        UdpServerConfig { nack_delay_ms: number, ..before },
    );
    lemma_udp_server_added(
        args,
        before,
        "--nack-interval-ms"@,
        decimal(number as nat),
        UdpServerConfig { nack_interval_ms: number, ..before },
    );
    lemma_udp_server_added(
        args,
        before,
        "--nack-rounds"@,
        decimal(count as nat),
        UdpServerConfig { nack_rounds: count, ..before },
    );
    lemma_udp_server_added(
        args,
        before,
        "--nack-max-chunks"@,
        decimal(count as nat),
        UdpServerConfig { nack_max_chunks: count, ..before },
    );
    lemma_udp_server_added(
        args,
        before,
        "--status-interval-ms"@,
        decimal(number as nat),
        UdpServerConfig { status_interval_ms: number, ..before },
    );
}

/// On the command line of a UDP server, a switch at the end sets what it names and
/// leaves everything else as the line before it has it.
#[verifier::rlimit(60)]
pub proof fn law_udp_server_switches_are_added(
    args: Seq<Seq<char>>,
    before: UdpServerConfig<Seq<char>>,
)
    requires
        asks_for(udp_server_command_line(args), before),
    ensures
        asks_for(
            udp_server_command_line(args + seq!["--verbose-chunks"@]),
            UdpServerConfig { verbose_chunks: true, ..before },
        ),
        asks_for(
            udp_server_command_line(args + seq!["--quiet-frames"@]),
            UdpServerConfig { quiet_frames: true, ..before },
        ),
        asks_for(
            udp_server_command_line(args + seq!["--nack-empty-frames"@]),
            UdpServerConfig { nack_empty_frames: true, ..before },
        ),
{
    reveal_strlit("--bind");
    reveal_strlit("--log");
    reveal_strlit("--read-timeout-ms");
    reveal_strlit("--frame-timeout-ms");
    reveal_strlit("--drop-every");
    reveal_strlit("--drop-initial-frame-video-every");
    reveal_strlit("--nack-delay-ms");
    reveal_strlit("--nack-interval-ms");
    reveal_strlit("--nack-rounds");
    reveal_strlit("--nack-max-chunks");
    reveal_strlit("--status-interval-ms");
    reveal_strlit("--verbose-chunks");
    reveal_strlit("--quiet-frames");
    reveal_strlit("--nack-empty-frames");
    assert("--read-timeout-ms"@[2] == 'r');
    assert("--frame-timeout-ms"@[2] == 'f');
    assert("--nack-interval-ms"@[2] == 'n');
    assert("--nack-max-chunks"@[2] == 'n');
    lemma_udp_server_flagged(
        args,
        before,
        "--verbose-chunks"@,
        UdpServerConfig { verbose_chunks: true, ..before },
    );
    lemma_udp_server_flagged(
        args,
        before,
        "--quiet-frames"@,
        UdpServerConfig { quiet_frames: true, ..before },
    );
    lemma_udp_server_flagged(
        args,
        before,
        "--nack-empty-frames"@,
        UdpServerConfig { nack_empty_frames: true, ..before },
    );
}

// ---------------------------------------------------------------------------
// The UDP client's options
// ---------------------------------------------------------------------------

proof fn lemma_udp_client_prefix(
    state: (UdpClientConfig<Seq<char>>, Option<Seq<char>>),
    args: Seq<Seq<char>>,
    more: Seq<Seq<char>>,
    at: int,
)
    requires
        0 <= at <= args.len(),
        udp_client_options(state, args, at) is Ok,
    ensures
        udp_client_options(state, args + more, at) == udp_client_options(
            udp_client_options(state, args, at)->Ok_0,
            args + more,
            args.len() as int,
        ),
    decreases args.len() - at,
{
    let all = args + more;
    if at < args.len() {
        assert(all[at] == args[at]);
        if at + 1 < args.len() {
            assert(all[at + 1] == args[at + 1]);
        }
        assert(udp_client_option(state, all, at) == udp_client_option(state, args, at));
        let (next, rest) = udp_client_option(state, args, at)->Ok_0;
        assert(at < rest <= args.len());
        lemma_udp_client_prefix(next, args, more, rest);
    }
}

proof fn lemma_udp_client_added(
    args: Seq<Seq<char>>,
    before: (UdpClientConfig<Seq<char>>, Option<Seq<char>>),
    option: Seq<char>,
    value: Seq<char>,
    next: (UdpClientConfig<Seq<char>>, Option<Seq<char>>),
)
    requires
        asks_for(udp_client_options((udp_client_defaults(), None), args, 0), before),
        asks_for(udp_client_option(before, seq![option, value], 0), (next, 2)),
    ensures
        asks_for(udp_client_options((udp_client_defaults(), None), args + seq![option, value], 0), next),
{
    let more = seq![option, value];
    let all = args + more;
    let end = args.len() as int;
    lemma_udp_client_prefix((udp_client_defaults(), None), args, more, 0);
    assert(all[end] == option && more[0] == option);
    assert(all[end + 1] == value && more[1] == value);
    assert(asks_for(udp_client_option(before, all, end), (next, end + 2)));
    assert(asks_for(udp_client_options(next, all, end + 2), next));
}

proof fn lemma_udp_client_flagged(
    args: Seq<Seq<char>>,
    before: (UdpClientConfig<Seq<char>>, Option<Seq<char>>),
    option: Seq<char>,
    next: (UdpClientConfig<Seq<char>>, Option<Seq<char>>),
)
    requires
        asks_for(udp_client_options((udp_client_defaults(), None), args, 0), before),
        asks_for(udp_client_option(before, seq![option], 0), (next, 1)),
    ensures
        asks_for(udp_client_options((udp_client_defaults(), None), args + seq![option], 0), next),
{
    let more = seq![option];
    let all = args + more;
    let end = args.len() as int;
    lemma_udp_client_prefix((udp_client_defaults(), None), args, more, 0);
    assert(all[end] == option && more[0] == option);
    assert(asks_for(udp_client_option(before, all, end), (next, end + 1)));
    assert(asks_for(udp_client_options(next, all, end + 1), next));
}

/// On the command line of a UDP client, an option with a value at the end sets what
/// it names and leaves everything else as the line before it has it.
#[verifier::rlimit(60)]
pub proof fn law_udp_client_values_are_added(
    args: Seq<Seq<char>>,
    before: UdpClientConfig<Seq<char>>,
    text: Seq<char>,
    number: u64,
    count: u32,
    size: usize,
)
    requires
        asks_for(udp_client_command_line(args), before),
    ensures
        asks_for(
            udp_client_command_line(args + seq!["--connect"@, text]),
            UdpClientConfig { connect: text, ..before },
        ),
        asks_for(
            udp_client_command_line(args + seq!["--bind"@, text]),
            UdpClientConfig { bind: text, ..before },
        ),
        asks_for(
            udp_client_command_line(args + seq!["--log"@, text]),
            UdpClientConfig { log_path: Some(text), ..before },
        ),
        asks_for(
            udp_client_command_line(args + seq!["--duration-sec"@, decimal(number as nat)]),
            UdpClientConfig { duration_sec: number, ..before },
        ),
        asks_for(
            udp_client_command_line(args + seq!["--fps"@, decimal(count as nat)]),
            UdpClientConfig { fps: count, ..before },
        ),
        asks_for(
            udp_client_command_line(args + seq!["--frame-size"@, decimal(count as nat)]),
            UdpClientConfig { frame_size: count, ..before },
        ),
        asks_for(
            udp_client_command_line(args + seq!["--payload-size"@, decimal(count as nat)]),
            UdpClientConfig { payload_size: count, ..before },
        ),
        asks_for(
            udp_client_command_line(args + seq!["--pace-every"@, decimal(count as nat)]),
            UdpClientConfig { pace_every: count, ..before },
        ),
        asks_for(
            udp_client_command_line(args + seq!["--pace-us"@, decimal(number as nat)]),
            UdpClientConfig { pace_us: number, ..before },
        ),
        asks_for(
            udp_client_command_line(args + seq!["--resend-cache-frames"@, decimal(size as nat)]),
            UdpClientConfig { resend_cache_frames: size, ..before },
        ),
        asks_for(
            udp_client_command_line(args + seq!["--nack-linger-ms"@, decimal(number as nat)]),
            UdpClientConfig { nack_linger_ms: number, ..before },
        ),
{
    reveal_strlit("--connect");
    reveal_strlit("--bind");
    reveal_strlit("--log");
    reveal_strlit("--duration-sec");
    reveal_strlit("--fps");
    reveal_strlit("--frame-size");
    reveal_strlit("--payload-size");
    reveal_strlit("--pace-every");
    reveal_strlit("--pace-us");
    reveal_strlit("--resend-cache-frames");
    reveal_strlit("--nack-linger-ms");
    reveal_strlit("--verbose-chunks");
    reveal_strlit("--quiet-frames");
    reveal_strlit("--no-announce");
    assert("--connect"@[2] == 'c');
    assert("--log"@[2] == 'l');
    assert("--duration-sec"@[2] == 'd');
    assert("--fps"@[2] == 'f');
    assert("--frame-size"@[2] == 'f');
    assert("--payload-size"@[2] == 'p');
    assert("--pace-every"@[2] == 'p');
    assert("--pace-us"@[2] == 'p');
    assert("--nack-linger-ms"@[2] == 'n');
    assert("--verbose-chunks"@[2] == 'v');
    assert("--quiet-frames"@[2] == 'q');
    law_decimal_reads_back(number as nat, u64::MAX as nat);
    law_decimal_reads_back(count as nat, u32::MAX as nat);
    law_decimal_reads_back(size as nat, usize::MAX as nat);
    let (so_far, given) = udp_client_options((udp_client_defaults(), None), args, 0)->Ok_0;
    lemma_udp_client_added(
        args,
        (so_far, given),
        "--connect"@,
        text,
        (so_far, Some(text)),
    );
    lemma_udp_client_added(
        args,
        (so_far, given),
        "--bind"@,
        text,
        (UdpClientConfig { bind: text, ..so_far }, given),
    );
    lemma_udp_client_added(
        args,
        (so_far, given),
        "--log"@,
        text,
        (UdpClientConfig { log_path: Some(text), ..so_far }, given),
    );
    lemma_udp_client_added(
        args,
        (so_far, given),
        "--duration-sec"@,
        decimal(number as nat),
        (UdpClientConfig { duration_sec: number, ..so_far }, given),
    );
    lemma_udp_client_added(
        args,
        (so_far, given),
        "--fps"@,
        decimal(count as nat),
        (UdpClientConfig { fps: count, ..so_far }, given),
    );
    lemma_udp_client_added(
        args,
        (so_far, given),
        "--frame-size"@,
        decimal(count as nat),
        (UdpClientConfig { frame_size: count, ..so_far }, given),
    );
    lemma_udp_client_added(
        args,
        (so_far, given),
        "--payload-size"@,
        decimal(count as nat),
        (UdpClientConfig { payload_size: count, ..so_far }, given),
    );
    lemma_udp_client_added(
        args,
        (so_far, given),
        "--pace-every"@,
        decimal(count as nat),
        (UdpClientConfig { pace_every: count, ..so_far }, given),
    );
    lemma_udp_client_added(
        args,
        (so_far, given),
        "--pace-us"@,
        decimal(number as nat),
        (UdpClientConfig { pace_us: number, ..so_far }, given),
    );
    lemma_udp_client_added(
        args,
        (so_far, given),
        "--resend-cache-frames"@,
        decimal(size as nat),
        (UdpClientConfig { resend_cache_frames: size, ..so_far }, given),
    );
    lemma_udp_client_added(
        args,
        (so_far, given),
        "--nack-linger-ms"@,
        decimal(number as nat),
        (UdpClientConfig { nack_linger_ms: number, ..so_far }, given),
    );
}

/// On the command line of a UDP client, a switch at the end sets what it names and
/// leaves everything else as the line before it has it.
#[verifier::rlimit(60)]
pub proof fn law_udp_client_switches_are_added(
    args: Seq<Seq<char>>,
    before: UdpClientConfig<Seq<char>>,
)
    requires
        asks_for(udp_client_command_line(args), before),
    ensures
        asks_for(
            udp_client_command_line(args + seq!["--verbose-chunks"@]),
            UdpClientConfig { verbose_chunks: true, ..before },
        ),
        asks_for(
            udp_client_command_line(args + seq!["--quiet-frames"@]),
            UdpClientConfig { quiet_frames: true, ..before },
        ),
        asks_for(
            udp_client_command_line(args + seq!["--no-announce"@]),
            UdpClientConfig { announce_frames: false, ..before },
        ),
{
    reveal_strlit("--connect");
    reveal_strlit("--bind");
    reveal_strlit("--log");
    reveal_strlit("--duration-sec");
    reveal_strlit("--fps");
    reveal_strlit("--frame-size");
    reveal_strlit("--payload-size");
    reveal_strlit("--pace-every");
    reveal_strlit("--pace-us");
    reveal_strlit("--resend-cache-frames");
    reveal_strlit("--nack-linger-ms");
    reveal_strlit("--verbose-chunks");
    reveal_strlit("--quiet-frames");
    reveal_strlit("--no-announce");
    assert("--connect"@[2] == 'c');
    assert("--log"@[2] == 'l');
    assert("--duration-sec"@[2] == 'd');
    assert("--fps"@[2] == 'f');
    assert("--frame-size"@[2] == 'f');
    assert("--payload-size"@[2] == 'p');
    assert("--pace-every"@[2] == 'p');
    assert("--pace-us"@[2] == 'p');
    assert("--nack-linger-ms"@[2] == 'n');
    assert("--verbose-chunks"@[2] == 'v');
    assert("--quiet-frames"@[2] == 'q');
    let (so_far, given) = udp_client_options((udp_client_defaults(), None), args, 0)->Ok_0;
    lemma_udp_client_flagged(
        args,
        (so_far, given),
        "--verbose-chunks"@,
        (UdpClientConfig { verbose_chunks: true, ..so_far }, given),
    );
    lemma_udp_client_flagged(
        args,
        (so_far, given),
        "--quiet-frames"@,
        (UdpClientConfig { quiet_frames: true, ..so_far }, given),
    );
    lemma_udp_client_flagged(
        args,
        (so_far, given),
        "--no-announce"@,
        (UdpClientConfig { announce_frames: false, ..so_far }, given),
    );
}
// ---------------------------------------------------------------------------
// Modes and words
// ---------------------------------------------------------------------------

/// On the command line of a TCP client, a mode at the end is the mode that its
/// name names, and the delay of small packets is switched by a word.
#[verifier::rlimit(60)]
pub proof fn law_client_words_are_added(
    args: Seq<Seq<char>>,
    before: ClientConfig<Seq<char>>,
    mode: SendMode,
    word: Seq<char>,
    on: bool,
)
    requires
        asks_for(client_command_line(args), before),
        on ==> word == "1"@ || word == "true"@ || word == "yes"@ || word == "on"@,
        !on ==> word == "0"@ || word == "false"@ || word == "no"@ || word == "off"@,
    ensures
        asks_for(
            client_command_line(args + seq!["--mode"@, mode.name()]),
            ClientConfig { mode, ..before },
        ),
        asks_for(
            client_command_line(args + seq!["--tcp-nodelay"@, word]),
            ClientConfig { tcp_nodelay: on, ..before },
        ),
{
    lemma_client_words();
    lemma_boolean_words(word, on);
    law_send_mode_names(mode);
    let (so_far, given) = client_options((client_defaults(), None), args, 0)->Ok_0;
    lemma_client_added(
        args,
        (so_far, given),
        "--mode"@,
        mode.name(),
        (ClientConfig { mode, ..so_far }, given),
    );
    lemma_client_added(
        args,
        (so_far, given),
        "--tcp-nodelay"@,
        word,
        (ClientConfig { tcp_nodelay: on, ..so_far }, given),
    );
}

proof fn lemma_client_words()
    ensures
        "--mode"@.len() == 6,
        "--tcp-nodelay"@.len() == 13,
        "--connect"@.len() == 9,
        "--log"@.len() == 5,
        "--duration-sec"@.len() == 14,
        "--fps"@.len() == 5,
        "--frame-size"@.len() == 12,
        "--chunk-size"@.len() == 12,
        "--window-bytes"@.len() == 14,
        "--window-wait-ms"@.len() == 16,
        "--drop-when-window-full"@.len() == 23,
        "--pace-every"@.len() == 12,
        "--pace-us"@.len() == 9,
        "--io-timeout-ms"@.len() == 15,
        "--verbose-chunks"@.len() == 16,
{
    reveal_strlit("--mode");
    reveal_strlit("--tcp-nodelay");
    reveal_strlit("--connect");
    reveal_strlit("--log");
    reveal_strlit("--duration-sec");
    reveal_strlit("--fps");
    reveal_strlit("--frame-size");
    reveal_strlit("--chunk-size");
    reveal_strlit("--window-bytes");
    reveal_strlit("--window-wait-ms");
    reveal_strlit("--drop-when-window-full");
    reveal_strlit("--pace-every");
    reveal_strlit("--pace-us");
    reveal_strlit("--io-timeout-ms");
    reveal_strlit("--verbose-chunks");
}

proof fn lemma_boolean_words(word: Seq<char>, on: bool)
    requires
        on ==> word == "1"@ || word == "true"@ || word == "yes"@ || word == "on"@,
        !on ==> word == "0"@ || word == "false"@ || word == "no"@ || word == "off"@,
    ensures
        boolean(word) == Ok::<bool, Seq<char>>(on),
{
    reveal_strlit("1");
    reveal_strlit("true");
    reveal_strlit("yes");
    reveal_strlit("on");
    reveal_strlit("0");
    reveal_strlit("false");
    reveal_strlit("no");
    reveal_strlit("off");
    assert("1"@[0] == '1');
    assert("0"@[0] == '0');
    assert("yes"@[0] == 'y');
    assert("off"@[0] == 'o');
    assert("on"@[0] == 'o');
    assert("no"@[0] == 'n');
    assert("true"@.len() == 4);
    assert("false"@.len() == 5);
    assert("on"@.len() == 2);
    assert("off"@.len() == 3);
    assert("yes"@.len() == 3);
    assert("no"@.len() == 2);
    assert("0"@.len() == 1);
}

/// The first argument names the command, and the others are its options; without
/// one, and with another, the arguments are refused.
pub proof fn law_commands_are_named(args: Seq<Seq<char>>, word: Seq<char>)
    ensures
        command_line(seq!["server"@] + args) == match server_command_line(args) {
            Ok(config) => Ok::<Command<Seq<char>>, Seq<char>>(Command::Server(config)),
            Err(err) => Err(err),
        },
        command_line(seq!["client"@] + args) == match client_command_line(args) {
            Ok(config) => Ok::<Command<Seq<char>>, Seq<char>>(Command::Client(config)),
            Err(err) => Err(err),
        },
        command_line(seq!["udp-server"@] + args) == match udp_server_command_line(args) {
            Ok(config) => Ok::<Command<Seq<char>>, Seq<char>>(Command::UdpServer(config)),
            Err(err) => Err(err),
        },
        command_line(seq!["udp-client"@] + args) == match udp_client_command_line(args) {
            Ok(config) => Ok::<Command<Seq<char>>, Seq<char>>(Command::UdpClient(config)),
            Err(err) => Err(err),
        },
        command_line(seq![]) is Err,
        word != "server"@ && word != "client"@ && word != "udp-server"@ && word != "udp-client"@
            ==> command_line(seq![word] + args) is Err,
{
    reveal_strlit("server");
    reveal_strlit("client");
    reveal_strlit("udp-server");
    reveal_strlit("udp-client");
    reveal_strlit("--help");
    reveal_strlit("-h");
    assert("server"@.len() == 6 && "server"@[0] == 's');
    assert("client"@.len() == 6 && "client"@[0] == 'c');
    assert("udp-server"@.len() == 10 && "udp-server"@[4] == 's');
    assert("udp-client"@.len() == 10 && "udp-client"@[4] == 'c');
    assert("--help"@.len() == 6 && "--help"@[0] == '-');
    assert("-h"@.len() == 2);
    assert((seq!["server"@] + args).skip(1) =~= args);
    assert((seq!["client"@] + args).skip(1) =~= args);
    assert((seq!["udp-server"@] + args).skip(1) =~= args);
    assert((seq!["udp-client"@] + args).skip(1) =~= args);
    assert((seq![word] + args)[0] == word);
}

} // verus!
