//! Command lines of the network probe.
use vstd::prelude::*;
use vstd::string::*;

use crate::netprobe::wire::{CHUNK_BODY_LEN, MAX_RECORD_LEN, MAX_UDP_PACKET_LEN, UDP_PACKET_HEADER_LEN};
use crate::parse::{parse_unsigned, read_unsigned, usize_max, views, IntError};
use crate::text::text_eq;

verus! {

pub const USAGE: &'static str = "usage:
  rustadmin-netprobe server [--bind 0.0.0.0:23000] [--log PATH] [--ack-every-chunks N] [--read-timeout-ms N] [--pause-read-after-ms N] [--pause-read-duration-ms N] [--pause-read-repeat-ms N] [--verbose-chunks] [--tcp-nodelay true|false]
  rustadmin-netprobe client --connect HOST:23000 [--duration-sec N] [--fps N] [--frame-size BYTES] [--chunk-size BYTES] [--mode burst|paced|window] [--window-bytes BYTES] [--window-wait-ms N] [--drop-when-window-full] [--pace-every N] [--pace-us N] [--io-timeout-ms N] [--log PATH] [--verbose-chunks] [--tcp-nodelay true|false]
  rustadmin-netprobe udp-server [--bind 0.0.0.0:23000] [--log PATH] [--read-timeout-ms N] [--frame-timeout-ms N] [--drop-every N] [--drop-initial-frame-video-every N] [--nack-delay-ms N] [--nack-interval-ms N] [--nack-rounds N] [--nack-max-chunks N] [--nack-empty-frames] [--status-interval-ms N] [--quiet-frames] [--verbose-chunks]
  rustadmin-netprobe udp-client --connect HOST:23000 [--bind 0.0.0.0:0] [--duration-sec N] [--fps N] [--frame-size BYTES] [--payload-size BYTES] [--pace-every N] [--pace-us N] [--resend-cache-frames N] [--nack-linger-ms N] [--no-announce] [--log PATH] [--quiet-frames] [--verbose-chunks]
";

/// How a TCP client sends the chunks of a frame.
#[derive(Clone, Copy, Debug, PartialEq, Eq, Structural)]
pub enum SendMode {
    Burst,
    Paced,
    Window,
}

impl SendMode {
    /// The mode's name.
    pub open spec fn name(self) -> Seq<char> {
        match self {
            SendMode::Burst => "burst"@,
            SendMode::Paced => "paced"@,
            SendMode::Window => "window"@,
        }
    }

    /// The mode that a text names.
    pub open spec fn parsed(value: Seq<char>) -> Result<SendMode, Seq<char>> {
        if value == "burst"@ {
            Ok(SendMode::Burst)
        } else if value == "paced"@ {
            Ok(SendMode::Paced)
        } else if value == "window"@ {
            Ok(SendMode::Window)
        } else {
            Err("unknown mode '"@ + value + "', expected burst, paced, or window"@)
        }
    }

    pub fn parse(value: &str) -> (res: Result<SendMode, String>)
        ensures
            match res {
                Ok(mode) => SendMode::parsed(value@) == Ok::<SendMode, Seq<char>>(mode),
                Err(err) => SendMode::parsed(value@) == Err::<SendMode, Seq<char>>(err@),
            },
    {
        if text_eq(value, "burst") {
            Ok(SendMode::Burst)
        } else if text_eq(value, "paced") {
            Ok(SendMode::Paced)
        } else if text_eq(value, "window") {
            Ok(SendMode::Window)
        } else {
            let mut err = "unknown mode '".to_owned();
            err.append(value);
            err.append("', expected burst, paced, or window");
            Err(err)
        }
    }

    pub fn as_str(self) -> (text: &'static str)
        ensures
            text@ == self.name(),
    {
        match self {
            SendMode::Burst => "burst",
            SendMode::Paced => "paced",
            SendMode::Window => "window",
        }
    }

    /// The mode's byte in a hello message.
    pub open spec fn code(self) -> u8 {
        match self {
            SendMode::Burst => 0,
            SendMode::Paced => 1,
            SendMode::Window => 2,
        }
    }

    pub fn wire(self) -> (code: u8)
        ensures
            code == self.code(),
    {
        match self {
            SendMode::Burst => 0,
            SendMode::Paced => 1,
            SendMode::Window => 2,
        }
    }

    /// The name that a hello message's mode byte stands for.
    pub open spec fn wire_name(value: u8) -> Seq<char> {
        if value == 0 {
            "burst"@
        } else if value == 1 {
            "paced"@
        } else if value == 2 {
            "window"@
        } else {
            "unknown"@
        }
    }

    pub fn from_wire(value: u8) -> (text: &'static str)
        ensures
            text@ == SendMode::wire_name(value),
    {
        match value {
            0 => "burst",
            1 => "paced",
            2 => "window",
            _ => "unknown",
        }
    }
}

/// A mode's name parses to the mode, and its wire byte names it.
pub proof fn law_send_mode_names(mode: SendMode)
    ensures
        SendMode::parsed(mode.name()) == Ok::<SendMode, Seq<char>>(mode),
        SendMode::wire_name(mode.code()) == mode.name(),
{
    reveal_strlit("burst");
    reveal_strlit("paced");
    reveal_strlit("window");
    assert("burst"@[0] == 'b');
    assert("paced"@[0] == 'p');
    assert("window"@[0] == 'w');
}

/// What the contents of an optional text are.
pub open spec fn optional_text(text: Option<String>) -> Option<Seq<char>> {
    match text {
        Some(text) => Some(text@),
        None => None,
    }
}

// ---------------------------------------------------------------------------
// Option values
// ---------------------------------------------------------------------------

/// The value behind the option at `at`.
pub open spec fn value_after(args: Seq<Seq<char>>, at: int) -> Result<Seq<char>, Seq<char>> {
    if at + 1 < args.len() {
        Ok(args[at + 1])
    } else {
        Err(args[at] + " requires a value"@)
    }
}

/// The words for a text that is no integer.
pub open spec fn integer_error(value: Seq<char>, err: IntError) -> Seq<char> {
    "invalid integer '"@ + value + "': "@ + err.reason()
}

/// The integer that a text writes.
pub open spec fn integer(value: Seq<char>, max: nat) -> Result<nat, Seq<char>> {
    match read_unsigned(value, max) {
        Ok(number) => Ok(number),
        Err(err) => Err(integer_error(value, err)),
    }
}

/// The switch that a text names.
pub open spec fn boolean(value: Seq<char>) -> Result<bool, Seq<char>> {
    if value == "1"@ || value == "true"@ || value == "yes"@ || value == "on"@ {
        Ok(true)
    } else if value == "0"@ || value == "false"@ || value == "no"@ || value == "off"@ {
        Ok(false)
    } else {
        Err("invalid boolean '"@ + value + "'"@)
    }
}

/// The integer behind the option at `at`.
pub open spec fn integer_after(args: Seq<Seq<char>>, at: int, max: nat) -> Result<nat, Seq<char>> {
    match value_after(args, at) {
        Ok(value) => integer(value, max),
        Err(err) => Err(err),
    }
}

/// The switch behind the option at `at`.
pub open spec fn boolean_after(args: Seq<Seq<char>>, at: int) -> Result<bool, Seq<char>> {
    match value_after(args, at) {
        Ok(value) => boolean(value),
        Err(err) => Err(err),
    }
}

/// The mode behind the option at `at`.
pub open spec fn mode_after(args: Seq<Seq<char>>, at: int) -> Result<SendMode, Seq<char>> {
    match value_after(args, at) {
        Ok(value) => SendMode::parsed(value),
        Err(err) => Err(err),
    }
}

/// The words for an option that a command does not know.
pub open spec fn unknown_option(command: Seq<char>, option: Seq<char>) -> Seq<char> {
    "unknown "@ + command + " option '"@ + option + "'"@
}

/// Moves to the value behind the option `name` at `index` and hands it out.
pub fn next_value(args: &[String], index: &mut usize, name: &str) -> (res: Result<String, String>)
    requires
        *old(index) < args.len(),
        name@ == args@[*old(index) as int]@,
    ensures
        *final(index) == *old(index) + 1,
        match res {
            Ok(value) => {
                &&& value_after(views(args@), *old(index) as int) == Ok::<Seq<char>, Seq<char>>(value@)
                &&& *final(index) < args.len()
            },
            Err(err) => value_after(views(args@), *old(index) as int) == Err::<Seq<char>, Seq<char>>(err@),
        },
{
    *index = *index + 1;
    if *index < args.len() {
        Ok(args[*index].clone())
    } else {
        let mut err = name.to_owned();
        err.append(" requires a value");
        Err(err)
    }
}

fn integer_message(value: &str, err: IntError) -> (text: String)
    ensures
        text@ == integer_error(value@, err),
{
    let mut text = "invalid integer '".to_owned();
    text.append(value);
    text.append("': ");
    text.append(err.message());
    text
}

pub fn parse_u32(value: &str) -> (res: Result<u32, String>)
    ensures
        match res {
            Ok(number) => integer(value@, u32::MAX as nat) == Ok::<nat, Seq<char>>(number as nat),
            Err(err) => integer(value@, u32::MAX as nat) == Err::<nat, Seq<char>>(err@),
        },
{
    match parse_unsigned(value, u32::MAX as u64) {
        Ok(number) => {
            proof {
                crate::parse::lemma_read_bounded(value@, u32::MAX as nat);
            }
            Ok(number as u32)
        },
        Err(err) => Err(integer_message(value, err)),
    }
}

pub fn parse_u64(value: &str) -> (res: Result<u64, String>)
    ensures
        match res {
            Ok(number) => integer(value@, u64::MAX as nat) == Ok::<nat, Seq<char>>(number as nat),
            Err(err) => integer(value@, u64::MAX as nat) == Err::<nat, Seq<char>>(err@),
        },
{
    match parse_unsigned(value, u64::MAX) {
        Ok(number) => Ok(number),
        Err(err) => Err(integer_message(value, err)),
    }
}

pub fn parse_usize(value: &str) -> (res: Result<usize, String>)
    ensures
        match res {
            Ok(number) => integer(value@, usize::MAX as nat) == Ok::<nat, Seq<char>>(number as nat),
            Err(err) => integer(value@, usize::MAX as nat) == Err::<nat, Seq<char>>(err@),
        },
{
    match parse_unsigned(value, usize_max()) {
        Ok(number) => {
            proof {
                crate::parse::lemma_read_bounded(value@, usize::MAX as nat);
            }
            Ok(number as usize)
        },
        Err(err) => Err(integer_message(value, err)),
    }
}

pub fn parse_bool(value: &str) -> (res: Result<bool, String>)
    ensures
        match res {
            Ok(switch) => boolean(value@) == Ok::<bool, Seq<char>>(switch),
            Err(err) => boolean(value@) == Err::<bool, Seq<char>>(err@),
        },
{
    if text_eq(value, "1") || text_eq(value, "true") || text_eq(value, "yes") || text_eq(value, "on") {
        Ok(true)
    } else if text_eq(value, "0") || text_eq(value, "false") || text_eq(value, "no") || text_eq(
        value,
        "off",
    ) {
        Ok(false)
    } else {
        let mut err = "invalid boolean '".to_owned();
        err.append(value);
        err.append("'");
        Err(err)
    }
}

fn unknown_option_message(command: &str, option: &str) -> (text: String)
    ensures
        text@ == unknown_option(command@, option@),
{
    let mut text = "unknown ".to_owned();
    text.append(command);
    text.append(" option '");
    text.append(option);
    text.append("'");
    text
}

pub fn usage() -> (text: String)
    ensures
        text@ == USAGE@,
{
    USAGE.to_owned()
}

// ---------------------------------------------------------------------------
// server
// ---------------------------------------------------------------------------

/// The options of the TCP server.
#[derive(Debug)]
pub struct ServerConfig<S> {
    pub bind: S,
    pub log_path: Option<S>,
    pub ack_every_chunks: u32,
    pub read_timeout_ms: u64,
    pub pause_read_after_ms: u64,
    pub pause_read_duration_ms: u64,
    pub pause_read_repeat_ms: u64,
    pub verbose_chunks: bool,
    pub tcp_nodelay: bool,
}

impl View for ServerConfig<String> {
    type V = ServerConfig<Seq<char>>;

    open spec fn view(&self) -> ServerConfig<Seq<char>> {
        ServerConfig {
            bind: self.bind@,
            log_path: optional_text(self.log_path),
            ack_every_chunks: self.ack_every_chunks,
            read_timeout_ms: self.read_timeout_ms,
            pause_read_after_ms: self.pause_read_after_ms,
            pause_read_duration_ms: self.pause_read_duration_ms,
            pause_read_repeat_ms: self.pause_read_repeat_ms,
            verbose_chunks: self.verbose_chunks,
            tcp_nodelay: self.tcp_nodelay,
        }
    }
}

/// The options where none are given.
pub open spec fn server_defaults() -> ServerConfig<Seq<char>> {
    ServerConfig {
        bind: "0.0.0.0:23000"@,
        log_path: None,
        ack_every_chunks: 0,
        read_timeout_ms: 30_000,
        pause_read_after_ms: 0,
        pause_read_duration_ms: 0,
        pause_read_repeat_ms: 0,
        verbose_chunks: false,
        tcp_nodelay: true,
    }
}

/// The options after the option at `at`, and where the next one stands.
pub open spec fn server_option(
    state: ServerConfig<Seq<char>>,
    args: Seq<Seq<char>>,
    at: int,
) -> Result<(ServerConfig<Seq<char>>, int), Seq<char>> {
    let option = args[at];
    if option == "--bind"@ {
        match value_after(args, at) {
            Ok(value) => Ok((ServerConfig { bind: value, ..state }, at + 2)),
            Err(err) => Err(err),
        }
    } else if option == "--log"@ {
        match value_after(args, at) {
            Ok(value) => Ok((ServerConfig { log_path: Some(value), ..state }, at + 2)),
            Err(err) => Err(err),
        }
    } else if option == "--ack-every-chunks"@ {
        match integer_after(args, at, u32::MAX as nat) {
            Ok(value) => Ok((ServerConfig { ack_every_chunks: value as u32, ..state }, at + 2)),
            Err(err) => Err(err),
        }
    } else if option == "--read-timeout-ms"@ {
        match integer_after(args, at, u64::MAX as nat) {
            Ok(value) => Ok((ServerConfig { read_timeout_ms: value as u64, ..state }, at + 2)),
            Err(err) => Err(err),
        }
    } else if option == "--pause-read-after-ms"@ {
        match integer_after(args, at, u64::MAX as nat) {
            Ok(value) => Ok((ServerConfig { pause_read_after_ms: value as u64, ..state }, at + 2)),
            Err(err) => Err(err),
        }
    } else if option == "--pause-read-duration-ms"@ {
        match integer_after(args, at, u64::MAX as nat) {
            Ok(value) => Ok((ServerConfig { pause_read_duration_ms: value as u64, ..state }, at + 2)),
            Err(err) => Err(err),
        }
    } else if option == "--pause-read-repeat-ms"@ {
        match integer_after(args, at, u64::MAX as nat) {
            Ok(value) => Ok((ServerConfig { pause_read_repeat_ms: value as u64, ..state }, at + 2)),
            Err(err) => Err(err),
        }
    } else if option == "--verbose-chunks"@ {
        Ok((ServerConfig { verbose_chunks: true, ..state }, at + 1))
    } else if option == "--tcp-nodelay"@ {
        match boolean_after(args, at) {
            Ok(value) => Ok((ServerConfig { tcp_nodelay: value, ..state }, at + 2)),
            Err(err) => Err(err),
        }
    } else if option == "--help"@ || option == "-h"@ {
        Err(USAGE@)
    } else {
        Err(unknown_option("server"@, option))
    }
}

/// The options after the arguments from `at` on.
pub open spec fn server_options(
    state: ServerConfig<Seq<char>>,
    args: Seq<Seq<char>>,
    at: int,
) -> Result<ServerConfig<Seq<char>>, Seq<char>>
    decreases args.len() - at,
{
    if at >= args.len() {
        Ok(state)
    } else {
        match server_option(state, args, at) {
            Ok((next, rest)) => if at < rest {
                server_options(next, args, rest)
            } else {
                Ok(next)
            },
            Err(err) => Err(err),
        }
    }
}

/// What a `server` command line asks for.
pub open spec fn server_command_line(args: Seq<Seq<char>>) -> Result<ServerConfig<Seq<char>>, Seq<char>> {
    server_options(server_defaults(), args, 0)
}

pub fn parse_server(args: &[String]) -> (res: Result<ServerConfig<String>, String>)
    ensures
        match res {
            Ok(config) => server_command_line(views(args@)) == Ok::<ServerConfig<Seq<char>>, Seq<char>>(config@),
            Err(err) => server_command_line(views(args@)) == Err::<ServerConfig<Seq<char>>, Seq<char>>(err@),
        },
{
    let mut config = ServerConfig::<String> {
        bind: "0.0.0.0:23000".to_owned(),
        log_path: None,
        ack_every_chunks: 0,
        read_timeout_ms: 30_000,
        pause_read_after_ms: 0,
        pause_read_duration_ms: 0,
        pause_read_repeat_ms: 0,
        verbose_chunks: false,
        tcp_nodelay: true,
    };
    let mut i: usize = 0;
    while i < args.len()
        invariant
            i <= args.len(),
            server_options(server_defaults(), views(args@), 0) == server_options(config@, views(args@), i as int),
        decreases args.len() - i,
    {
        let name = args[i].as_str();
        assert(views(args@)[i as int] == name@);
        if text_eq(name, "--bind") {
            config.bind = next_value(args, &mut i, name)?;
        } else if text_eq(name, "--log") {
            config.log_path = Some(next_value(args, &mut i, name)?);
        } else if text_eq(name, "--ack-every-chunks") {
            config.ack_every_chunks = parse_u32(next_value(args, &mut i, name)?.as_str())?;
        } else if text_eq(name, "--read-timeout-ms") {
            config.read_timeout_ms = parse_u64(next_value(args, &mut i, name)?.as_str())?;
        } else if text_eq(name, "--pause-read-after-ms") {
            config.pause_read_after_ms = parse_u64(next_value(args, &mut i, name)?.as_str())?;
        } else if text_eq(name, "--pause-read-duration-ms") {
            config.pause_read_duration_ms = parse_u64(next_value(args, &mut i, name)?.as_str())?;
        } else if text_eq(name, "--pause-read-repeat-ms") {
            config.pause_read_repeat_ms = parse_u64(next_value(args, &mut i, name)?.as_str())?;
        } else if text_eq(name, "--verbose-chunks") {
            config.verbose_chunks = true;
        } else if text_eq(name, "--tcp-nodelay") {
            config.tcp_nodelay = parse_bool(next_value(args, &mut i, name)?.as_str())?;
        } else if text_eq(name, "--help") || text_eq(name, "-h") {
            return Err(usage());
        } else {
            return Err(unknown_option_message("server", name));
        }
        i += 1;
    }
    Ok(config)
}

// ---------------------------------------------------------------------------
// client
// ---------------------------------------------------------------------------

/// The options of the TCP client.
#[derive(Debug)]
pub struct ClientConfig<S> {
    pub connect: S,
    pub log_path: Option<S>,
    pub duration_sec: u64,
    pub fps: u32,
    pub frame_size: u32,
    pub chunk_size: u32,
    pub mode: SendMode,
    pub window_bytes: u64,
    pub window_wait_ms: u64,
    pub drop_when_window_full: bool,
    pub pace_every: u32,
    pub pace_us: u64,
    pub io_timeout_ms: u64,
    pub verbose_chunks: bool,
    pub tcp_nodelay: bool,
}

impl View for ClientConfig<String> {
    type V = ClientConfig<Seq<char>>;

    open spec fn view(&self) -> ClientConfig<Seq<char>> {
        ClientConfig {
            connect: self.connect@,
            log_path: optional_text(self.log_path),
            duration_sec: self.duration_sec,
            fps: self.fps,
            frame_size: self.frame_size,
            chunk_size: self.chunk_size,
            mode: self.mode,
            window_bytes: self.window_bytes,
            window_wait_ms: self.window_wait_ms,
            drop_when_window_full: self.drop_when_window_full,
            pace_every: self.pace_every,
            pace_us: self.pace_us,
            io_timeout_ms: self.io_timeout_ms,
            verbose_chunks: self.verbose_chunks,
            tcp_nodelay: self.tcp_nodelay,
        }
    }
}

/// The options where none are given.
pub open spec fn client_defaults() -> ClientConfig<Seq<char>> {
    ClientConfig {
        connect: seq![],
        log_path: None,
        duration_sec: 20,
        fps: 30,
        frame_size: 44_032,
        chunk_size: 1024,
        mode: SendMode::Burst,
        window_bytes: 262_144,
        window_wait_ms: 10_000,
        drop_when_window_full: false,
        pace_every: 4,
        pace_us: 1000,
        io_timeout_ms: 15_000,
        verbose_chunks: false,
        tcp_nodelay: true,
    }
}

/// The options and the address given so far after the option at `at`, and where the next one stands.
pub open spec fn client_option(
    state: (ClientConfig<Seq<char>>, Option<Seq<char>>),
    args: Seq<Seq<char>>,
    at: int,
) -> Result<((ClientConfig<Seq<char>>, Option<Seq<char>>), int), Seq<char>> {
    let option = args[at];
    if option == "--connect"@ {
        match value_after(args, at) {
            Ok(value) => Ok(((state.0, Some(value)), at + 2)),
            Err(err) => Err(err),
        }
    } else if option == "--log"@ {
        match value_after(args, at) {
            Ok(value) => Ok(((ClientConfig { log_path: Some(value), ..state.0 }, state.1), at + 2)),
            Err(err) => Err(err),
        }
    } else if option == "--duration-sec"@ {
        match integer_after(args, at, u64::MAX as nat) {
            Ok(value) => Ok(((ClientConfig { duration_sec: value as u64, ..state.0 }, state.1), at + 2)),
            Err(err) => Err(err),
        }
    } else if option == "--fps"@ {
        match integer_after(args, at, u32::MAX as nat) {
            Ok(value) => Ok(((ClientConfig { fps: value as u32, ..state.0 }, state.1), at + 2)),
            Err(err) => Err(err),
        }
    } else if option == "--frame-size"@ {
        match integer_after(args, at, u32::MAX as nat) {
            Ok(value) => Ok(((ClientConfig { frame_size: value as u32, ..state.0 }, state.1), at + 2)),
            Err(err) => Err(err),
        }
    } else if option == "--chunk-size"@ {
        match integer_after(args, at, u32::MAX as nat) {
            Ok(value) => Ok(((ClientConfig { chunk_size: value as u32, ..state.0 }, state.1), at + 2)),
            Err(err) => Err(err),
        }
    } else if option == "--mode"@ {
        match mode_after(args, at) {
            Ok(value) => Ok(((ClientConfig { mode: value, ..state.0 }, state.1), at + 2)),
            Err(err) => Err(err),
        }
    } else if option == "--window-bytes"@ {
        match integer_after(args, at, u64::MAX as nat) {
            Ok(value) => Ok(((ClientConfig { window_bytes: value as u64, ..state.0 }, state.1), at + 2)),
            Err(err) => Err(err),
        }
    } else if option == "--window-wait-ms"@ {
        match integer_after(args, at, u64::MAX as nat) {
            Ok(value) => Ok(((ClientConfig { window_wait_ms: value as u64, ..state.0 }, state.1), at + 2)),
            Err(err) => Err(err),
        }
    } else if option == "--drop-when-window-full"@ {
        Ok(((ClientConfig { drop_when_window_full: true, ..state.0 }, state.1), at + 1))
    } else if option == "--pace-every"@ {
        match integer_after(args, at, u32::MAX as nat) {
            Ok(value) => Ok(((ClientConfig { pace_every: value as u32, ..state.0 }, state.1), at + 2)),
            Err(err) => Err(err),
        }
    } else if option == "--pace-us"@ {
        match integer_after(args, at, u64::MAX as nat) {
            Ok(value) => Ok(((ClientConfig { pace_us: value as u64, ..state.0 }, state.1), at + 2)),
            Err(err) => Err(err),
        }
    } else if option == "--io-timeout-ms"@ {
        match integer_after(args, at, u64::MAX as nat) {
            Ok(value) => Ok(((ClientConfig { io_timeout_ms: value as u64, ..state.0 }, state.1), at + 2)),
            Err(err) => Err(err),
        }
    } else if option == "--verbose-chunks"@ {
        Ok(((ClientConfig { verbose_chunks: true, ..state.0 }, state.1), at + 1))
    } else if option == "--tcp-nodelay"@ {
        match boolean_after(args, at) {
            Ok(value) => Ok(((ClientConfig { tcp_nodelay: value, ..state.0 }, state.1), at + 2)),
            Err(err) => Err(err),
        }
    } else if option == "--help"@ || option == "-h"@ {
        Err(USAGE@)
    } else {
        Err(unknown_option("client"@, option))
    }
}

/// The options and the address given so far after the arguments from `at` on.
pub open spec fn client_options(
    state: (ClientConfig<Seq<char>>, Option<Seq<char>>),
    args: Seq<Seq<char>>,
    at: int,
) -> Result<(ClientConfig<Seq<char>>, Option<Seq<char>>), Seq<char>>
    decreases args.len() - at,
{
    if at >= args.len() {
        Ok(state)
    } else {
        match client_option(state, args, at) {
            Ok((next, rest)) => if at < rest {
                client_options(next, args, rest)
            } else {
                Ok(next)
            },
            Err(err) => Err(err),
        }
    }
}

/// What a `client` command line asks for.
pub open spec fn client_command_line(args: Seq<Seq<char>>) -> Result<ClientConfig<Seq<char>>, Seq<char>> {
    match client_options((client_defaults(), None), args, 0) {
        Ok((config, Some(connect))) => Ok(ClientConfig { connect, ..config }),
        Ok((config, None)) => Err("--connect is required for client mode"@),
        Err(err) => Err(err),
    }
}

pub fn parse_client(args: &[String]) -> (res: Result<ClientConfig<String>, String>)
    ensures
        match res {
            Ok(config) => client_command_line(views(args@)) == Ok::<ClientConfig<Seq<char>>, Seq<char>>(config@),
            Err(err) => client_command_line(views(args@)) == Err::<ClientConfig<Seq<char>>, Seq<char>>(err@),
        },
{
    let mut connect: Option<String> = None;
    let mut config = ClientConfig::<String> {
        connect: String::new(),
        log_path: None,
        duration_sec: 20,
        fps: 30,
        frame_size: 44_032,
        chunk_size: 1024,
        mode: SendMode::Burst,
        window_bytes: 262_144,
        window_wait_ms: 10_000,
        drop_when_window_full: false,
        pace_every: 4,
        pace_us: 1000,
        io_timeout_ms: 15_000,
        verbose_chunks: false,
        tcp_nodelay: true,
    };
    let mut i: usize = 0;
    assert(config.connect@ =~= seq![]);
    while i < args.len()
        invariant
            i <= args.len(),
            client_options((client_defaults(), None), views(args@), 0) == client_options(
                (config@, optional_text(connect)),
                views(args@),
                i as int,
            ),
        decreases args.len() - i,
    {
        let name = args[i].as_str();
        assert(views(args@)[i as int] == name@);
        if text_eq(name, "--connect") {
            connect = Some(next_value(args, &mut i, name)?);
        } else if text_eq(name, "--log") {
            config.log_path = Some(next_value(args, &mut i, name)?);
        } else if text_eq(name, "--duration-sec") {
            config.duration_sec = parse_u64(next_value(args, &mut i, name)?.as_str())?;
        } else if text_eq(name, "--fps") {
            config.fps = parse_u32(next_value(args, &mut i, name)?.as_str())?;
        } else if text_eq(name, "--frame-size") {
            config.frame_size = parse_u32(next_value(args, &mut i, name)?.as_str())?;
        } else if text_eq(name, "--chunk-size") {
            config.chunk_size = parse_u32(next_value(args, &mut i, name)?.as_str())?;
        } else if text_eq(name, "--mode") {
            config.mode = SendMode::parse(next_value(args, &mut i, name)?.as_str())?;
        } else if text_eq(name, "--window-bytes") {
            config.window_bytes = parse_u64(next_value(args, &mut i, name)?.as_str())?;
        } else if text_eq(name, "--window-wait-ms") {
            config.window_wait_ms = parse_u64(next_value(args, &mut i, name)?.as_str())?;
        } else if text_eq(name, "--drop-when-window-full") {
            config.drop_when_window_full = true;
        } else if text_eq(name, "--pace-every") {
            config.pace_every = parse_u32(next_value(args, &mut i, name)?.as_str())?;
        } else if text_eq(name, "--pace-us") {
            config.pace_us = parse_u64(next_value(args, &mut i, name)?.as_str())?;
        } else if text_eq(name, "--io-timeout-ms") {
            config.io_timeout_ms = parse_u64(next_value(args, &mut i, name)?.as_str())?;
        } else if text_eq(name, "--verbose-chunks") {
            config.verbose_chunks = true;
        } else if text_eq(name, "--tcp-nodelay") {
            config.tcp_nodelay = parse_bool(next_value(args, &mut i, name)?.as_str())?;
        } else if text_eq(name, "--help") || text_eq(name, "-h") {
            return Err(usage());
        } else {
            return Err(unknown_option_message("client", name));
        }
        i += 1;
    }
    match connect {
        Some(address) => {
            config.connect = address;
            Ok(config)
        },
        None => Err("--connect is required for client mode".to_owned()),
    }
}

// ---------------------------------------------------------------------------
// udp-server
// ---------------------------------------------------------------------------

/// The options of the UDP server.
#[derive(Debug)]
pub struct UdpServerConfig<S> {
    pub bind: S,
    pub log_path: Option<S>,
    pub read_timeout_ms: u64,
    pub frame_timeout_ms: u64,
    pub drop_every: u64,
    pub drop_initial_frame_video_every: u64,
    pub verbose_chunks: bool,
    pub quiet_frames: bool,
    pub nack_delay_ms: u64,
    pub nack_interval_ms: u64,
    pub nack_rounds: u32,
    pub nack_max_chunks: u32,
    pub nack_empty_frames: bool,
    pub status_interval_ms: u64,
}

impl View for UdpServerConfig<String> {
    type V = UdpServerConfig<Seq<char>>;

    open spec fn view(&self) -> UdpServerConfig<Seq<char>> {
        UdpServerConfig {
            bind: self.bind@,
            log_path: optional_text(self.log_path),
            read_timeout_ms: self.read_timeout_ms,
            frame_timeout_ms: self.frame_timeout_ms,
            drop_every: self.drop_every,
            drop_initial_frame_video_every: self.drop_initial_frame_video_every,
            verbose_chunks: self.verbose_chunks,
            quiet_frames: self.quiet_frames,
            nack_delay_ms: self.nack_delay_ms,
            nack_interval_ms: self.nack_interval_ms,
            nack_rounds: self.nack_rounds,
            nack_max_chunks: self.nack_max_chunks,
            nack_empty_frames: self.nack_empty_frames,
            status_interval_ms: self.status_interval_ms,
        }
    }
}

/// The options where none are given.
pub open spec fn udp_server_defaults() -> UdpServerConfig<Seq<char>> {
    UdpServerConfig {
        bind: "0.0.0.0:23000"@,
        log_path: None,
        read_timeout_ms: 30_000,
        frame_timeout_ms: 2_000,
        drop_every: 0,
        drop_initial_frame_video_every: 0,
        verbose_chunks: false,
        quiet_frames: false,
        nack_delay_ms: 25,
        nack_interval_ms: 25,
        nack_rounds: 8,
        nack_max_chunks: 128,
        nack_empty_frames: false,
        status_interval_ms: 500,
    }
}

/// The options after the option at `at`, and where the next one stands.
pub open spec fn udp_server_option(
    state: UdpServerConfig<Seq<char>>,
    args: Seq<Seq<char>>,
    at: int,
) -> Result<(UdpServerConfig<Seq<char>>, int), Seq<char>> {
    let option = args[at];
    if option == "--bind"@ {
        match value_after(args, at) {
            Ok(value) => Ok((UdpServerConfig { bind: value, ..state }, at + 2)),
            Err(err) => Err(err),
        }
    } else if option == "--log"@ {
        match value_after(args, at) {
            Ok(value) => Ok((UdpServerConfig { log_path: Some(value), ..state }, at + 2)),
            Err(err) => Err(err),
        }
    } else if option == "--read-timeout-ms"@ {
        match integer_after(args, at, u64::MAX as nat) {
            Ok(value) => Ok((UdpServerConfig { read_timeout_ms: value as u64, ..state }, at + 2)),
            Err(err) => Err(err),
        }
    } else if option == "--frame-timeout-ms"@ {
        match integer_after(args, at, u64::MAX as nat) {
            Ok(value) => Ok((UdpServerConfig { frame_timeout_ms: value as u64, ..state }, at + 2)),
            Err(err) => Err(err),
        }
    } else if option == "--drop-every"@ {
        match integer_after(args, at, u64::MAX as nat) {
            Ok(value) => Ok((UdpServerConfig { drop_every: value as u64, ..state }, at + 2)),
            Err(err) => Err(err),
        }
    } else if option == "--drop-initial-frame-video-every"@ {
        match integer_after(args, at, u64::MAX as nat) {
            Ok(value) => Ok((UdpServerConfig { drop_initial_frame_video_every: value as u64, ..state }, at + 2)),
            Err(err) => Err(err),
        }
    } else if option == "--verbose-chunks"@ {
        Ok((UdpServerConfig { verbose_chunks: true, ..state }, at + 1))
    } else if option == "--quiet-frames"@ {
        Ok((UdpServerConfig { quiet_frames: true, ..state }, at + 1))
    } else if option == "--nack-delay-ms"@ {
        match integer_after(args, at, u64::MAX as nat) {
            Ok(value) => Ok((UdpServerConfig { nack_delay_ms: value as u64, ..state }, at + 2)),
            Err(err) => Err(err),
        }
    } else if option == "--nack-interval-ms"@ {
        match integer_after(args, at, u64::MAX as nat) {
            Ok(value) => Ok((UdpServerConfig { nack_interval_ms: value as u64, ..state }, at + 2)),
            Err(err) => Err(err),
        }
    } else if option == "--nack-rounds"@ {
        match integer_after(args, at, u32::MAX as nat) {
            Ok(value) => Ok((UdpServerConfig { nack_rounds: value as u32, ..state }, at + 2)),
            Err(err) => Err(err),
        }
    } else if option == "--nack-max-chunks"@ {
        match integer_after(args, at, u32::MAX as nat) {
            Ok(value) => Ok((UdpServerConfig { nack_max_chunks: value as u32, ..state }, at + 2)),
            Err(err) => Err(err),
        }
    } else if option == "--nack-empty-frames"@ {
        Ok((UdpServerConfig { nack_empty_frames: true, ..state }, at + 1))
    } else if option == "--status-interval-ms"@ {
        match integer_after(args, at, u64::MAX as nat) {
            Ok(value) => Ok((UdpServerConfig { status_interval_ms: value as u64, ..state }, at + 2)),
            Err(err) => Err(err),
        }
    } else if option == "--help"@ || option == "-h"@ {
        Err(USAGE@)
    } else {
        Err(unknown_option("udp-server"@, option))
    }
}

/// The options after the arguments from `at` on.
pub open spec fn udp_server_options(
    state: UdpServerConfig<Seq<char>>,
    args: Seq<Seq<char>>,
    at: int,
) -> Result<UdpServerConfig<Seq<char>>, Seq<char>>
    decreases args.len() - at,
{
    if at >= args.len() {
        Ok(state)
    } else {
        match udp_server_option(state, args, at) {
            Ok((next, rest)) => if at < rest {
                udp_server_options(next, args, rest)
            } else {
                Ok(next)
            },
            Err(err) => Err(err),
        }
    }
}

/// What a `udp-server` command line asks for.
pub open spec fn udp_server_command_line(args: Seq<Seq<char>>) -> Result<UdpServerConfig<Seq<char>>, Seq<char>> {
    udp_server_options(udp_server_defaults(), args, 0)
}

pub fn parse_udp_server(args: &[String]) -> (res: Result<UdpServerConfig<String>, String>)
    ensures
        match res {
            Ok(config) => udp_server_command_line(views(args@)) == Ok::<UdpServerConfig<Seq<char>>, Seq<char>>(config@),
            Err(err) => udp_server_command_line(views(args@)) == Err::<UdpServerConfig<Seq<char>>, Seq<char>>(err@),
        },
{
    let mut config = UdpServerConfig::<String> {
        bind: "0.0.0.0:23000".to_owned(),
        log_path: None,
        read_timeout_ms: 30_000,
        frame_timeout_ms: 2_000,
        drop_every: 0,
        drop_initial_frame_video_every: 0,
        verbose_chunks: false,
        quiet_frames: false,
        nack_delay_ms: 25,
        nack_interval_ms: 25,
        nack_rounds: 8,
        nack_max_chunks: 128,
        nack_empty_frames: false,
        status_interval_ms: 500,
    };
    let mut i: usize = 0;
    while i < args.len()
        invariant
            i <= args.len(),
            udp_server_options(udp_server_defaults(), views(args@), 0) == udp_server_options(
                config@,
                views(args@),
                i as int,
            ),
        decreases args.len() - i,
    {
        let name = args[i].as_str();
        assert(views(args@)[i as int] == name@);
        if text_eq(name, "--bind") {
            config.bind = next_value(args, &mut i, name)?;
        } else if text_eq(name, "--log") {
            config.log_path = Some(next_value(args, &mut i, name)?);
        } else if text_eq(name, "--read-timeout-ms") {
            config.read_timeout_ms = parse_u64(next_value(args, &mut i, name)?.as_str())?;
        } else if text_eq(name, "--frame-timeout-ms") {
            config.frame_timeout_ms = parse_u64(next_value(args, &mut i, name)?.as_str())?;
        } else if text_eq(name, "--drop-every") {
            config.drop_every = parse_u64(next_value(args, &mut i, name)?.as_str())?;
        } else if text_eq(name, "--drop-initial-frame-video-every") {
            config.drop_initial_frame_video_every = parse_u64(next_value(args, &mut i, name)?.as_str())?;
        } else if text_eq(name, "--verbose-chunks") {
            config.verbose_chunks = true;
        } else if text_eq(name, "--quiet-frames") {
            config.quiet_frames = true;
        } else if text_eq(name, "--nack-delay-ms") {
            config.nack_delay_ms = parse_u64(next_value(args, &mut i, name)?.as_str())?;
        } else if text_eq(name, "--nack-interval-ms") {
            config.nack_interval_ms = parse_u64(next_value(args, &mut i, name)?.as_str())?;
        } else if text_eq(name, "--nack-rounds") {
            config.nack_rounds = parse_u32(next_value(args, &mut i, name)?.as_str())?;
        } else if text_eq(name, "--nack-max-chunks") {
            config.nack_max_chunks = parse_u32(next_value(args, &mut i, name)?.as_str())?;
        } else if text_eq(name, "--nack-empty-frames") {
            config.nack_empty_frames = true;
        } else if text_eq(name, "--status-interval-ms") {
            config.status_interval_ms = parse_u64(next_value(args, &mut i, name)?.as_str())?;
        } else if text_eq(name, "--help") || text_eq(name, "-h") {
            return Err(usage());
        } else {
            return Err(unknown_option_message("udp-server", name));
        }
        i += 1;
    }
    Ok(config)
}

// ---------------------------------------------------------------------------
// udp-client
// ---------------------------------------------------------------------------

/// The options of the UDP client.
#[derive(Debug)]
pub struct UdpClientConfig<S> {
    pub connect: S,
    pub bind: S,
    pub log_path: Option<S>,
    pub duration_sec: u64,
    pub fps: u32,
    pub frame_size: u32,
    pub payload_size: u32,
    pub pace_every: u32,
    pub pace_us: u64,
    pub verbose_chunks: bool,
    pub quiet_frames: bool,
    pub resend_cache_frames: usize,
    pub nack_linger_ms: u64,
    pub announce_frames: bool,
}

impl View for UdpClientConfig<String> {
    type V = UdpClientConfig<Seq<char>>;

    open spec fn view(&self) -> UdpClientConfig<Seq<char>> {
        UdpClientConfig {
            connect: self.connect@,
            bind: self.bind@,
            log_path: optional_text(self.log_path),
            duration_sec: self.duration_sec,
            fps: self.fps,
            frame_size: self.frame_size,
            payload_size: self.payload_size,
            pace_every: self.pace_every,
            pace_us: self.pace_us,
            verbose_chunks: self.verbose_chunks,
            quiet_frames: self.quiet_frames,
            resend_cache_frames: self.resend_cache_frames,
            nack_linger_ms: self.nack_linger_ms,
            announce_frames: self.announce_frames,
        }
    }
}

/// The options where none are given.
pub open spec fn udp_client_defaults() -> UdpClientConfig<Seq<char>> {
    UdpClientConfig {
        connect: seq![],
        bind: "0.0.0.0:0"@,
        log_path: None,
        duration_sec: 20,
        fps: 30,
        frame_size: 44_032,
        payload_size: 1100,
        pace_every: 0,
        pace_us: 0,
        verbose_chunks: false,
        quiet_frames: false,
        resend_cache_frames: 180,
        nack_linger_ms: 1_000,
        announce_frames: true,
    }
}

/// The options and the address given so far after the option at `at`, and where the next one stands.
pub open spec fn udp_client_option(
    state: (UdpClientConfig<Seq<char>>, Option<Seq<char>>),
    args: Seq<Seq<char>>,
    at: int,
) -> Result<((UdpClientConfig<Seq<char>>, Option<Seq<char>>), int), Seq<char>> {
    let option = args[at];
    if option == "--connect"@ {
        match value_after(args, at) {
            Ok(value) => Ok(((state.0, Some(value)), at + 2)),
            Err(err) => Err(err),
        }
    } else if option == "--bind"@ {
        match value_after(args, at) {
            Ok(value) => Ok(((UdpClientConfig { bind: value, ..state.0 }, state.1), at + 2)),
            Err(err) => Err(err),
        }
    } else if option == "--log"@ {
        match value_after(args, at) {
            Ok(value) => Ok(((UdpClientConfig { log_path: Some(value), ..state.0 }, state.1), at + 2)),
            Err(err) => Err(err),
        }
    } else if option == "--duration-sec"@ {
        match integer_after(args, at, u64::MAX as nat) {
            Ok(value) => Ok(((UdpClientConfig { duration_sec: value as u64, ..state.0 }, state.1), at + 2)),
            Err(err) => Err(err),
        }
    } else if option == "--fps"@ {
        match integer_after(args, at, u32::MAX as nat) {
            Ok(value) => Ok(((UdpClientConfig { fps: value as u32, ..state.0 }, state.1), at + 2)),
            Err(err) => Err(err),
        }
    } else if option == "--frame-size"@ {
        match integer_after(args, at, u32::MAX as nat) {
            Ok(value) => Ok(((UdpClientConfig { frame_size: value as u32, ..state.0 }, state.1), at + 2)),
            Err(err) => Err(err),
        }
    } else if option == "--payload-size"@ {
        match integer_after(args, at, u32::MAX as nat) {
            Ok(value) => Ok(((UdpClientConfig { payload_size: value as u32, ..state.0 }, state.1), at + 2)),
            Err(err) => Err(err),
        }
    } else if option == "--pace-every"@ {
        match integer_after(args, at, u32::MAX as nat) {
            Ok(value) => Ok(((UdpClientConfig { pace_every: value as u32, ..state.0 }, state.1), at + 2)),
            Err(err) => Err(err),
        }
    } else if option == "--pace-us"@ {
        match integer_after(args, at, u64::MAX as nat) {
            Ok(value) => Ok(((UdpClientConfig { pace_us: value as u64, ..state.0 }, state.1), at + 2)),
            Err(err) => Err(err),
        }
    } else if option == "--verbose-chunks"@ {
        Ok(((UdpClientConfig { verbose_chunks: true, ..state.0 }, state.1), at + 1))
    } else if option == "--quiet-frames"@ {
        Ok(((UdpClientConfig { quiet_frames: true, ..state.0 }, state.1), at + 1))
    } else if option == "--resend-cache-frames"@ {
        match integer_after(args, at, usize::MAX as nat) {
            Ok(value) => Ok(((UdpClientConfig { resend_cache_frames: value as usize, ..state.0 }, state.1), at + 2)),
            Err(err) => Err(err),
        }
    } else if option == "--nack-linger-ms"@ {
        match integer_after(args, at, u64::MAX as nat) {
            Ok(value) => Ok(((UdpClientConfig { nack_linger_ms: value as u64, ..state.0 }, state.1), at + 2)),
            Err(err) => Err(err),
        }
    } else if option == "--no-announce"@ {
        Ok(((UdpClientConfig { announce_frames: false, ..state.0 }, state.1), at + 1))
    } else if option == "--help"@ || option == "-h"@ {
        Err(USAGE@)
    } else {
        Err(unknown_option("udp-client"@, option))
    }
}

/// The options and the address given so far after the arguments from `at` on.
pub open spec fn udp_client_options(
    state: (UdpClientConfig<Seq<char>>, Option<Seq<char>>),
    args: Seq<Seq<char>>,
    at: int,
) -> Result<(UdpClientConfig<Seq<char>>, Option<Seq<char>>), Seq<char>>
    decreases args.len() - at,
{
    if at >= args.len() {
        Ok(state)
    } else {
        match udp_client_option(state, args, at) {
            Ok((next, rest)) => if at < rest {
                udp_client_options(next, args, rest)
            } else {
                Ok(next)
            },
            Err(err) => Err(err),
        }
    }
}

/// What a `udp-client` command line asks for.
pub open spec fn udp_client_command_line(args: Seq<Seq<char>>) -> Result<UdpClientConfig<Seq<char>>, Seq<char>> {
    match udp_client_options((udp_client_defaults(), None), args, 0) {
        Ok((config, Some(connect))) => Ok(UdpClientConfig { connect, ..config }),
        Ok((config, None)) => Err("--connect is required for udp-client mode"@),
        Err(err) => Err(err),
    }
}

pub fn parse_udp_client(args: &[String]) -> (res: Result<UdpClientConfig<String>, String>)
    ensures
        match res {
            Ok(config) => udp_client_command_line(views(args@)) == Ok::<UdpClientConfig<Seq<char>>, Seq<char>>(config@),
            Err(err) => udp_client_command_line(views(args@)) == Err::<UdpClientConfig<Seq<char>>, Seq<char>>(err@),
        },
{
    let mut connect: Option<String> = None;
    let mut config = UdpClientConfig::<String> {
        connect: String::new(),
        bind: "0.0.0.0:0".to_owned(),
        log_path: None,
        duration_sec: 20,
        fps: 30,
        frame_size: 44_032,
        payload_size: 1100,
        pace_every: 0,
        pace_us: 0,
        verbose_chunks: false,
        quiet_frames: false,
        resend_cache_frames: 180,
        nack_linger_ms: 1_000,
        announce_frames: true,
    };
    let mut i: usize = 0;
    assert(config.connect@ =~= seq![]);
    while i < args.len()
        invariant
            i <= args.len(),
            udp_client_options((udp_client_defaults(), None), views(args@), 0) == udp_client_options(
                (config@, optional_text(connect)),
                views(args@),
                i as int,
            ),
        decreases args.len() - i,
    {
        let name = args[i].as_str();
        assert(views(args@)[i as int] == name@);
        if text_eq(name, "--connect") {
            connect = Some(next_value(args, &mut i, name)?);
        } else if text_eq(name, "--bind") {
            config.bind = next_value(args, &mut i, name)?;
        } else if text_eq(name, "--log") {
            config.log_path = Some(next_value(args, &mut i, name)?);
        } else if text_eq(name, "--duration-sec") {
            config.duration_sec = parse_u64(next_value(args, &mut i, name)?.as_str())?;
        } else if text_eq(name, "--fps") {
            config.fps = parse_u32(next_value(args, &mut i, name)?.as_str())?;
        } else if text_eq(name, "--frame-size") {
            config.frame_size = parse_u32(next_value(args, &mut i, name)?.as_str())?;
        } else if text_eq(name, "--payload-size") {
            config.payload_size = parse_u32(next_value(args, &mut i, name)?.as_str())?;
        } else if text_eq(name, "--pace-every") {
            config.pace_every = parse_u32(next_value(args, &mut i, name)?.as_str())?;
        } else if text_eq(name, "--pace-us") {
            config.pace_us = parse_u64(next_value(args, &mut i, name)?.as_str())?;
        } else if text_eq(name, "--verbose-chunks") {
            config.verbose_chunks = true;
        } else if text_eq(name, "--quiet-frames") {
            config.quiet_frames = true;
        } else if text_eq(name, "--resend-cache-frames") {
            config.resend_cache_frames = parse_usize(next_value(args, &mut i, name)?.as_str())?;
        } else if text_eq(name, "--nack-linger-ms") {
            config.nack_linger_ms = parse_u64(next_value(args, &mut i, name)?.as_str())?;
        } else if text_eq(name, "--no-announce") {
            config.announce_frames = false;
        } else if text_eq(name, "--help") || text_eq(name, "-h") {
            return Err(usage());
        } else {
            return Err(unknown_option_message("udp-client", name));
        }
        i += 1;
    }
    match connect {
        Some(address) => {
            config.connect = address;
            Ok(config)
        },
        None => Err("--connect is required for udp-client mode".to_owned()),
    }
}

// ---------------------------------------------------------------------------
// Commands
// ---------------------------------------------------------------------------

/// What the probe is asked to do.
#[derive(Debug)]
pub enum Command<S> {
    Server(ServerConfig<S>),
    Client(ClientConfig<S>),
    UdpServer(UdpServerConfig<S>),
    UdpClient(UdpClientConfig<S>),
}

impl View for Command<String> {
    type V = Command<Seq<char>>;

    open spec fn view(&self) -> Command<Seq<char>> {
        match self {
            Command::Server(config) => Command::Server(config@),
            Command::Client(config) => Command::Client(config@),
            Command::UdpServer(config) => Command::UdpServer(config@),
            Command::UdpClient(config) => Command::UdpClient(config@),
        }
    }
}

/// What the arguments behind the program's name ask for.
pub open spec fn command_line(args: Seq<Seq<char>>) -> Result<Command<Seq<char>>, Seq<char>> {
    if args.len() == 0 || args[0] == "--help"@ || args[0] == "-h"@ {
        Err(USAGE@)
    } else if args[0] == "server"@ {
        match server_command_line(args.skip(1)) {
            Ok(config) => Ok(Command::Server(config)),
            Err(err) => Err(err),
        }
    } else if args[0] == "client"@ {
        match client_command_line(args.skip(1)) {
            Ok(config) => Ok(Command::Client(config)),
            Err(err) => Err(err),
        }
    } else if args[0] == "udp-server"@ {
        match udp_server_command_line(args.skip(1)) {
            Ok(config) => Ok(Command::UdpServer(config)),
            Err(err) => Err(err),
        }
    } else if args[0] == "udp-client"@ {
        match udp_client_command_line(args.skip(1)) {
            Ok(config) => Ok(Command::UdpClient(config)),
            Err(err) => Err(err),
        }
    } else {
        Err("unknown command '"@ + args[0] + "'\n\n"@ + USAGE@)
    }
}

/// Parses the arguments behind the program's name.
pub fn parse_args(args: &[String]) -> (res: Result<Command<String>, String>)
    ensures
        match res {
            Ok(command) => command_line(views(args@)) == Ok::<Command<Seq<char>>, Seq<char>>(command@),
            Err(err) => command_line(views(args@)) == Err::<Command<Seq<char>>, Seq<char>>(err@),
        },
{
    if args.len() == 0 {
        return Err(usage());
    }
    let name = args[0].as_str();
    assert(views(args@)[0] == name@);
    if text_eq(name, "--help") || text_eq(name, "-h") {
        return Err(usage());
    }
    let rest = vstd::slice::slice_subrange(args, 1, args.len());
    assert(views(rest@) =~= views(args@).skip(1));
    if text_eq(name, "server") {
        Ok(Command::Server(parse_server(rest)?))
    } else if text_eq(name, "client") {
        Ok(Command::Client(parse_client(rest)?))
    } else if text_eq(name, "udp-server") {
        Ok(Command::UdpServer(parse_udp_server(rest)?))
    } else if text_eq(name, "udp-client") {
        Ok(Command::UdpClient(parse_udp_client(rest)?))
    } else {
        let mut err = "unknown command '".to_owned();
        err.append(name);
        err.append("'\n\n");
        err.append(USAGE);
        Err(err)
    }
}

// ---------------------------------------------------------------------------
// Validity
// ---------------------------------------------------------------------------

/// The rule that a TCP client's options break, if any.
pub open spec fn client_fault<S>(config: ClientConfig<S>) -> Option<Seq<char>> {
    if config.fps == 0 {
        Some("--fps must be greater than zero"@)
    } else if config.frame_size == 0 {
        Some("--frame-size must be greater than zero"@)
    } else if config.chunk_size == 0 {
        Some("--chunk-size must be greater than zero"@)
    } else if config.chunk_size > MAX_RECORD_LEN - CHUNK_BODY_LEN - 1 {
        Some("--chunk-size is too large"@)
    } else if config.mode == SendMode::Window && config.window_bytes < config.chunk_size {
        Some("--window-bytes must be at least --chunk-size in window mode"@)
    } else if config.drop_when_window_full && config.mode != SendMode::Window {
        Some("--drop-when-window-full requires --mode window"@)
    } else if config.drop_when_window_full && config.window_bytes < config.frame_size {
        Some(
            "--window-bytes must be at least --frame-size when dropping full frames on a full window"@,
        )
    } else {
        None
    }
}

/// The rule that a UDP server's options break, if any.
pub open spec fn udp_server_fault<S>(config: UdpServerConfig<S>) -> Option<Seq<char>> {
    if config.frame_timeout_ms == 0 {
        Some("--frame-timeout-ms must be greater than zero"@)
    } else if config.nack_interval_ms == 0 {
        Some("--nack-interval-ms must be greater than zero"@)
    } else if config.nack_max_chunks == 0 {
        Some("--nack-max-chunks must be greater than zero"@)
    } else if config.nack_max_chunks * 4 > MAX_UDP_PACKET_LEN - UDP_PACKET_HEADER_LEN {
        Some("--nack-max-chunks is too large for one UDP packet"@)
    } else {
        None
    }
}

/// The rule that a UDP client's options break, if any.
pub open spec fn udp_client_fault<S>(config: UdpClientConfig<S>) -> Option<Seq<char>> {
    if config.fps == 0 {
        Some("--fps must be greater than zero"@)
    } else if config.frame_size == 0 {
        Some("--frame-size must be greater than zero"@)
    } else if config.payload_size == 0 {
        Some("--payload-size must be greater than zero"@)
    } else if UDP_PACKET_HEADER_LEN + config.payload_size > MAX_UDP_PACKET_LEN {
        Some("--payload-size is too large for one UDP packet"@)
    } else {
        None
    }
}

/// Whether a check came out as the rules say.
pub open spec fn checked(res: Result<(), String>, fault: Option<Seq<char>>) -> bool {
    match res {
        Ok(()) => fault is None,
        Err(err) => fault == Some(err@),
    }
}

pub fn validate_client_config(config: &ClientConfig<String>) -> (res: Result<(), String>)
    ensures
        checked(res, client_fault(*config)),
{
    if config.fps == 0 {
        return Err("--fps must be greater than zero".to_owned());
    }
    if config.frame_size == 0 {
        return Err("--frame-size must be greater than zero".to_owned());
    }
    if config.chunk_size == 0 {
        return Err("--chunk-size must be greater than zero".to_owned());
    }
    if config.chunk_size as usize > MAX_RECORD_LEN - CHUNK_BODY_LEN - 1 {
        return Err("--chunk-size is too large".to_owned());
    }
    if config.mode == SendMode::Window && config.window_bytes < config.chunk_size as u64 {
        return Err("--window-bytes must be at least --chunk-size in window mode".to_owned());
    }
    if config.drop_when_window_full && config.mode != SendMode::Window {
        return Err("--drop-when-window-full requires --mode window".to_owned());
    }
    if config.drop_when_window_full && config.window_bytes < config.frame_size as u64 {
        return Err(
            "--window-bytes must be at least --frame-size when dropping full frames on a full window".to_owned(),
        );
    }
    Ok(())
}

pub fn validate_udp_server_config(config: &UdpServerConfig<String>) -> (res: Result<(), String>)
    ensures
        checked(res, udp_server_fault(*config)),
{
    if config.frame_timeout_ms == 0 {
        return Err("--frame-timeout-ms must be greater than zero".to_owned());
    }
    if config.nack_interval_ms == 0 {
        return Err("--nack-interval-ms must be greater than zero".to_owned());
    }
    if config.nack_max_chunks == 0 {
        return Err("--nack-max-chunks must be greater than zero".to_owned());
    }
    if config.nack_max_chunks as u64 * 4 > (MAX_UDP_PACKET_LEN - UDP_PACKET_HEADER_LEN) as u64 {
        return Err("--nack-max-chunks is too large for one UDP packet".to_owned());
    }
    Ok(())
}

pub fn validate_udp_client_config(config: &UdpClientConfig<String>) -> (res: Result<(), String>)
    ensures
        checked(res, udp_client_fault(*config)),
{
    if config.fps == 0 {
        return Err("--fps must be greater than zero".to_owned());
    }
    if config.frame_size == 0 {
        return Err("--frame-size must be greater than zero".to_owned());
    }
    if config.payload_size == 0 {
        return Err("--payload-size must be greater than zero".to_owned());
    }
    if UDP_PACKET_HEADER_LEN as u64 + config.payload_size as u64 > MAX_UDP_PACKET_LEN as u64 {
        return Err("--payload-size is too large for one UDP packet".to_owned());
    }
    Ok(())
}

} // verus!
