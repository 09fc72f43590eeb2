//! The desktop-duplication probe: its options, what a capture attempt means, frame
//! hashes and the log. The caller talks to the graphics interfaces.
use vstd::prelude::*;
use vstd::string::*;

use crate::bitmap::{bitmap_bytes, encode_bitmap, image_fits};
use crate::debugprobe::{next_arg, next_number, next_value, parse_next};
use crate::netprobe::config::optional_text;
use crate::parse::{usize_max, views};
use crate::text::{
    bool_text, decimal, escape_json, hex16, hex8, json_escaped, push_bool, push_decimal, push_hex16, push_hex8,
    push_signed, signed_decimal, text_eq,
};

verus! {

// ---------------------------------------------------------------------------
// Options
// ---------------------------------------------------------------------------

/// Where the first frame comes from.
#[derive(Clone, Copy, Debug, PartialEq, Eq, Structural)]
pub enum Mode {
    DxgiOnly,
    HybridGdiBootstrap,
}

impl Mode {
    pub open spec fn name(self) -> Seq<char> {
        match self {
            Mode::DxgiOnly => "dxgi"@,
            Mode::HybridGdiBootstrap => "hybrid-gdi-bootstrap"@,
        }
    }

    pub open spec fn parsed(value: Seq<char>) -> Result<Mode, Seq<char>> {
        if value == "dxgi"@ {
            Ok(Mode::DxgiOnly)
        } else if value == "hybrid-gdi-bootstrap"@ {
            Ok(Mode::HybridGdiBootstrap)
        } else {
            Err("unknown mode '"@ + value + "'"@)
        }
    }

    pub fn parse(value: &str) -> (res: Result<Mode, String>)
        ensures
            match res {
                Ok(mode) => Mode::parsed(value@) == Ok::<Mode, Seq<char>>(mode),
                Err(err) => Mode::parsed(value@) == Err::<Mode, Seq<char>>(err@),
            },
    {
        if text_eq(value, "dxgi") {
            Ok(Mode::DxgiOnly)
        } else if text_eq(value, "hybrid-gdi-bootstrap") {
            Ok(Mode::HybridGdiBootstrap)
        } else {
            let mut err = "unknown mode '".to_owned();
            err.append(value);
            err.append("'");
            Err(err)
        }
    }

    pub fn as_str(self) -> (text: &'static str)
        ensures
            text@ == self.name(),
    {
        match self {
            Mode::DxgiOnly => "dxgi",
            Mode::HybridGdiBootstrap => "hybrid-gdi-bootstrap",
        }
    }
}

/// How the desktop is made to change.
#[derive(Clone, Copy, Debug, PartialEq, Eq, Structural)]
pub enum WakeMode {
    Off,
    Cursor,
    Redraw,
    LayeredWindow,
}

impl WakeMode {
    pub open spec fn name(self) -> Seq<char> {
        match self {
            WakeMode::Off => "none"@,
            WakeMode::Cursor => "cursor"@,
            WakeMode::Redraw => "redraw"@,
            WakeMode::LayeredWindow => "layered-window"@,
        }
    }

    pub open spec fn parsed(value: Seq<char>) -> Result<WakeMode, Seq<char>> {
        if value == "none"@ {
            Ok(WakeMode::Off)
        } else if value == "cursor"@ {
            Ok(WakeMode::Cursor)
        } else if value == "redraw"@ {
            Ok(WakeMode::Redraw)
        } else if value == "layered-window"@ {
            Ok(WakeMode::LayeredWindow)
        } else {
            Err("unknown wake mode '"@ + value + "'"@)
        }
    }

    pub fn parse(value: &str) -> (res: Result<WakeMode, String>)
        ensures
            match res {
                Ok(mode) => WakeMode::parsed(value@) == Ok::<WakeMode, Seq<char>>(mode),
                Err(err) => WakeMode::parsed(value@) == Err::<WakeMode, Seq<char>>(err@),
            },
    {
        if text_eq(value, "none") {
            Ok(WakeMode::Off)
        } else if text_eq(value, "cursor") {
            Ok(WakeMode::Cursor)
        } else if text_eq(value, "redraw") {
            Ok(WakeMode::Redraw)
        } else if text_eq(value, "layered-window") {
            Ok(WakeMode::LayeredWindow)
        } else {
            let mut err = "unknown wake mode '".to_owned();
            err.append(value);
            err.append("'");
            Err(err)
        }
    }

    pub fn as_str(self) -> (text: &'static str)
        ensures
            text@ == self.name(),
    {
        match self {
            WakeMode::Off => "none",
            WakeMode::Cursor => "cursor",
            WakeMode::Redraw => "redraw",
            WakeMode::LayeredWindow => "layered-window",
        }
    }
}

/// The names of modes parse to the modes.
pub proof fn law_mode_names_parse(mode: Mode, wake: WakeMode)
    ensures
        Mode::parsed(mode.name()) == Ok::<Mode, Seq<char>>(mode),
        WakeMode::parsed(wake.name()) == Ok::<WakeMode, Seq<char>>(wake),
{
    reveal_strlit("dxgi");
    reveal_strlit("hybrid-gdi-bootstrap");
    reveal_strlit("none");
    reveal_strlit("cursor");
    reveal_strlit("redraw");
    reveal_strlit("layered-window");
    assert("dxgi"@[0] == 'd');
    assert("hybrid-gdi-bootstrap"@[0] == 'h');
    assert("none"@[0] == 'n');
    assert("cursor"@[0] == 'c');
    assert("redraw"@[0] == 'r');
    assert("layered-window"@[0] == 'l');
}

/// What the probe is asked to do.
#[derive(Debug)]
pub struct DxgiOptions<S> {
    pub display: usize,
    pub duration_sec: u64,
    pub timeout_ms: u32,
    pub wake: WakeMode,
    pub mode: Mode,
    pub jsonl: S,
    pub save_first: Option<S>,
    pub map_pointer_only: bool,
    pub list_displays: bool,
    pub help: bool,
}

impl View for DxgiOptions<String> {
    type V = DxgiOptions<Seq<char>>;

    open spec fn view(&self) -> DxgiOptions<Seq<char>> {
        DxgiOptions {
            display: self.display,
            duration_sec: self.duration_sec,
            timeout_ms: self.timeout_ms,
            wake: self.wake,
            mode: self.mode,
            jsonl: self.jsonl@,
            save_first: optional_text(self.save_first),
            map_pointer_only: self.map_pointer_only,
            list_displays: self.list_displays,
            help: self.help,
        }
    }
}

pub open spec fn dxgi_defaults() -> DxgiOptions<Seq<char>> {
    DxgiOptions {
        display: 0,
        duration_sec: 30,
        timeout_ms: 500,
        wake: WakeMode::Off,
        mode: Mode::DxgiOnly,
        jsonl: "dxgi-probe.jsonl"@,
        save_first: None,
        map_pointer_only: false,
        list_displays: false,
        help: false,
    }
}

/// The options after the option at `at`, and where the next one stands.
pub open spec fn dxgi_option(state: DxgiOptions<Seq<char>>, args: Seq<Seq<char>>, at: int) -> Result<
    (DxgiOptions<Seq<char>>, int),
    Seq<char>,
> {
    let option = args[at];
    if option == "--display"@ {
        match next_number(args, at, usize::MAX as nat) {
            Ok(value) => Ok((DxgiOptions { display: value as usize, ..state }, at + 2)),
            Err(err) => Err(err),
        }
    } else if option == "--duration"@ {
        match next_number(args, at, u64::MAX as nat) {
            Ok(value) => Ok((DxgiOptions { duration_sec: value as u64, ..state }, at + 2)),
            Err(err) => Err(err),
        }
    } else if option == "--timeout-ms"@ {
        match next_number(args, at, u32::MAX as nat) {
            Ok(value) => Ok((DxgiOptions { timeout_ms: value as u32, ..state }, at + 2)),
            Err(err) => Err(err),
        }
    } else if option == "--wake"@ {
        match next_value(args, at) {
            Err(err) => Err(err),
            Ok(value) => match WakeMode::parsed(value) {
                Ok(wake) => Ok((DxgiOptions { wake, ..state }, at + 2)),
                Err(err) => Err(err),
            },
        }
    } else if option == "--mode"@ {
        match next_value(args, at) {
            Err(err) => Err(err),
            Ok(value) => match Mode::parsed(value) {
                Ok(mode) => Ok((DxgiOptions { mode, ..state }, at + 2)),
                Err(err) => Err(err),
            },
        }
    } else if option == "--jsonl"@ {
        match next_value(args, at) {
            Ok(value) => Ok((DxgiOptions { jsonl: value, ..state }, at + 2)),
            Err(err) => Err(err),
        }
    } else if option == "--save-first"@ {
        match next_value(args, at) {
            Ok(value) => Ok((DxgiOptions { save_first: Some(value), ..state }, at + 2)),
            Err(err) => Err(err),
        }
    } else if option == "--map-pointer-only"@ {
        Ok((DxgiOptions { map_pointer_only: true, ..state }, at + 1))
    } else if option == "--list-displays"@ {
        Ok((DxgiOptions { list_displays: true, ..state }, at + 1))
    } else if option == "--help"@ || option == "-h"@ {
        Ok((DxgiOptions { help: true, ..state }, at + 1))
    } else {
        Err("unknown argument '"@ + option + "'"@)
    }
}

/// The options after the arguments from `at` on.
pub open spec fn dxgi_options(state: DxgiOptions<Seq<char>>, args: Seq<Seq<char>>, at: int) -> Result<
    DxgiOptions<Seq<char>>,
    Seq<char>,
>
    decreases args.len() - at,
{
    if at >= args.len() {
        Ok(state)
    } else {
        match dxgi_option(state, args, at) {
            Ok((next, rest)) => if at < rest {
                dxgi_options(next, args, rest)
            } else {
                Ok(next)
            },
            Err(err) => Err(err),
        }
    }
}

/// Parses the arguments behind the program's name.
pub fn parse_dxgi_options(args: &[String]) -> (res: Result<DxgiOptions<String>, String>)
    ensures
        match res {
            Ok(options) => dxgi_options(dxgi_defaults(), views(args@), 0) == Ok::<
                DxgiOptions<Seq<char>>,
                Seq<char>,
            >(options@),
            Err(err) => dxgi_options(dxgi_defaults(), views(args@), 0) == Err::<
                DxgiOptions<Seq<char>>,
                Seq<char>,
            >(err@),
        },
{
    let mut options = DxgiOptions::<String> {
        display: 0,
        duration_sec: 30,
        timeout_ms: 500,
        wake: WakeMode::Off,
        mode: Mode::DxgiOnly,
        jsonl: "dxgi-probe.jsonl".to_owned(),
        save_first: None,
        map_pointer_only: false,
        list_displays: false,
        help: false,
    };
    let mut at: usize = 0;
    while at < args.len()
        invariant
            at <= args.len(),
            dxgi_options(dxgi_defaults(), views(args@), 0) == dxgi_options(
                options@,
                views(args@),
                at as int,
            ),
        decreases args.len() - at,
    {
        let name = args[at].as_str();
        assert(views(args@)[at as int] == name@);
        if text_eq(name, "--display") {
            options.display = parse_next(args, at, name, usize_max())? as usize;
            at += 2;
        } else if text_eq(name, "--duration") {
            options.duration_sec = parse_next(args, at, name, u64::MAX)?;
            at += 2;
        } else if text_eq(name, "--timeout-ms") {
            options.timeout_ms = parse_next(args, at, name, u32::MAX as u64)? as u32;
            at += 2;
        } else if text_eq(name, "--wake") {
            let value = next_arg(args, at, name)?;
            options.wake = WakeMode::parse(value.as_str())?;
            at += 2;
        } else if text_eq(name, "--mode") {
            let value = next_arg(args, at, name)?;
            options.mode = Mode::parse(value.as_str())?;
            at += 2;
        } else if text_eq(name, "--jsonl") {
            options.jsonl = next_arg(args, at, name)?;
            at += 2;
        } else if text_eq(name, "--save-first") {
            options.save_first = Some(next_arg(args, at, name)?);
            at += 2;
        } else if text_eq(name, "--map-pointer-only") {
            options.map_pointer_only = true;
            at += 1;
        } else if text_eq(name, "--list-displays") {
            options.list_displays = true;
            at += 1;
        } else if text_eq(name, "--help") || text_eq(name, "-h") {
            options.help = true;
            at += 1;
        } else {
            let mut err = "unknown argument '".to_owned();
            err.append(name);
            err.append("'");
            return Err(err);
        }
    }
    Ok(options)
}

// ---------------------------------------------------------------------------
// Displays
// ---------------------------------------------------------------------------

/// The place of a display on the desktop.
#[derive(Clone, Copy, Debug, PartialEq, Eq, Structural)]
pub struct DisplayRect {
    pub left: i32,
    pub top: i32,
    pub right: i32,
    pub bottom: i32,
}

/// The distance from `low` to `high`, zero where they are in the wrong order.
pub open spec fn extent(low: i32, high: i32) -> int {
    if high > low {
        high - low
    } else {
        0
    }
}

fn extent_of(low: i32, high: i32) -> (size: u32)
    ensures
        size == extent(low, high),
{
    if high > low {
        (high as i64 - low as i64) as u32
    } else {
        0
    }
}

impl DisplayRect {
    pub fn width(&self) -> (size: u32)
        ensures
            size == extent(self.left, self.right),
    {
        extent_of(self.left, self.right)
    }

    pub fn height(&self) -> (size: u32)
        ensures
            size == extent(self.top, self.bottom),
    {
        extent_of(self.top, self.bottom)
    }
}

/// A line of the list of displays.
pub fn display_line(
    index: usize,
    adapter_name: &str,
    output_name: &str,
    rect: &DisplayRect,
    attached: bool,
) -> (line: String)
    ensures
        line@ == "#"@ + decimal(index as nat) + ": adapter='"@ + adapter_name@ + "' output='"@
            + output_name@ + "' rect="@ + decimal(extent(rect.left, rect.right) as nat) + "x"@ + decimal(
            extent(rect.top, rect.bottom) as nat,
        ) + "+"@ + signed_decimal(rect.left as int) + "+"@ + signed_decimal(rect.top as int)
            + " attached="@ + bool_text(attached),
{
    let mut line = "#".to_owned();
    push_decimal(&mut line, index as u128);
    line.append(": adapter='");
    line.append(adapter_name);
    line.append("' output='");
    line.append(output_name);
    line.append("' rect=");
    push_decimal(&mut line, rect.width() as u128);
    line.append("x");
    push_decimal(&mut line, rect.height() as u128);
    line.append("+");
    push_signed(&mut line, rect.left as i64);
    line.append("+");
    push_signed(&mut line, rect.top as i64);
    line.append(" attached=");
    push_bool(&mut line, attached);
    line
}

/// The error for a display that is not there.
pub fn display_unavailable(display: usize) -> (text: String)
    ensures
        text@ == "display "@ + decimal(display as nat) + " is unavailable; run --list-displays first"@,
{
    let mut text = "display ".to_owned();
    push_decimal(&mut text, display as u128);
    text.append(" is unavailable; run --list-displays first");
    text
}

// ---------------------------------------------------------------------------
// Results of the graphics interfaces
// ---------------------------------------------------------------------------

/// 0x887A0027.
pub const DXGI_ERROR_WAIT_TIMEOUT: i32 = -2_005_270_489;

/// 0x887A0026.
pub const DXGI_ERROR_ACCESS_LOST: i32 = -2_005_270_490;

/// The code of a result as an unsigned number.
pub open spec fn result_code(hr: i32) -> nat {
    if hr < 0 {
        (hr + 0x1_0000_0000) as nat
    } else {
        hr as nat
    }
}

fn code_of(hr: i32) -> (code: u32)
    ensures
        code == result_code(hr),
{
    if hr < 0 {
        (hr as i64 + 0x1_0000_0000) as u32
    } else {
        hr as u32
    }
}

/// Why a capture attempt gave no frame.
#[derive(Clone, Copy, Debug, PartialEq, Eq, Structural)]
pub enum CaptureFailure {
    Timeout,
    PointerOnly,
    AccessLost(i32),
    Hresult(i32),
    /// The error is reported by its text.
    Io,
}

/// An error of a call that is named in the message.
pub fn hresult_to_io(hr: i32, context: &str) -> (res: Result<(), String>)
    ensures
        match res {
            Ok(()) => hr >= 0,
            Err(err) => hr < 0 && err@ == context@ + " failed: 0x"@ + hex8(result_code(hr)),
        },
{
    if hr >= 0 {
        return Ok(());
    }
    let mut err = context.to_owned();
    err.append(" failed: 0x");
    push_hex8(&mut err, code_of(hr));
    Err(err)
}

/// What a failed call means for a capture attempt.
pub fn hresult_to_probe(hr: i32) -> (res: Result<(), CaptureFailure>)
    ensures
        res == if hr >= 0 {
            Ok::<(), CaptureFailure>(())
        } else if hr == DXGI_ERROR_ACCESS_LOST {
            Err(CaptureFailure::AccessLost(hr))
        } else {
            Err(CaptureFailure::Hresult(hr))
        },
{
    if hr >= 0 {
        Ok(())
    } else if hr == DXGI_ERROR_ACCESS_LOST {
        Err(CaptureFailure::AccessLost(hr))
    } else {
        Err(CaptureFailure::Hresult(hr))
    }
}

/// What the answer to a request for the next frame means.
pub fn acquire_result(hr: i32) -> (res: Result<(), CaptureFailure>)
    ensures
        res == if hr == DXGI_ERROR_WAIT_TIMEOUT {
            Err::<(), CaptureFailure>(CaptureFailure::Timeout)
        } else if hr >= 0 {
            Ok(())
        } else if hr == DXGI_ERROR_ACCESS_LOST {
            Err(CaptureFailure::AccessLost(hr))
        } else {
            Err(CaptureFailure::Hresult(hr))
        },
{
    if hr == DXGI_ERROR_WAIT_TIMEOUT {
        return Err(CaptureFailure::Timeout);
    }
    hresult_to_probe(hr)
}

/// Whether an acquired frame is left alone because only the pointer moved.
pub fn is_pointer_only(map_pointer_only: bool, last_present_time: i64) -> (yes: bool)
    ensures
        yes == (!map_pointer_only && last_present_time == 0),
{
    !map_pointer_only && last_present_time == 0
}

/// The bytes of a mapped frame.
pub fn mapped_len(row_pitch: u32, height: u32) -> (len: u64)
    ensures
        len == row_pitch * height,
{
    assert(0 <= row_pitch * height <= 0xffff_ffff * 0xffff_ffff) by (nonlinear_arith)
        requires
            0 <= row_pitch <= 0xffff_ffff,
            0 <= height <= 0xffff_ffff,
    ;
    row_pitch as u64 * height as u64
}

// ---------------------------------------------------------------------------
// The probe
// ---------------------------------------------------------------------------

/// What the attempts of a run came to.
#[derive(Clone, Copy, Debug, PartialEq, Eq, Structural)]
pub struct ProbeTally {
    pub attempts: u64,
    pub frames: u64,
    pub timeouts: u64,
    pub access_lost: u64,
    pub first_saved: bool,
}

impl ProbeTally {
    /// In the mode with a first frame by GDI, that frame is the one saved.
    pub fn new(mode: Mode) -> (tally: ProbeTally)
        ensures
            tally == (ProbeTally {
                attempts: 0,
                frames: 0,
                timeouts: 0,
                access_lost: 0,
                first_saved: mode != Mode::DxgiOnly,
            }),
    {
        ProbeTally {
            attempts: 0,
            frames: 0,
            timeouts: 0,
            access_lost: 0,
            first_saved: mode != Mode::DxgiOnly,
        }
    }

    /// Starts an attempt.
    pub fn attempt(&mut self)
        requires
            old(self).attempts < u64::MAX,
        ensures
            *final(self) == (ProbeTally { attempts: (old(self).attempts + 1) as u64, ..*old(self) }),
    {
        self.attempts = self.attempts + 1;
    }

    /// Takes note of a frame; returns whether it is the one to save.
    pub fn frame(&mut self) -> (save: bool)
        requires
            old(self).frames < u64::MAX,
        ensures
            save == !old(self).first_saved,
            *final(self) == (ProbeTally {
                frames: (old(self).frames + 1) as u64,
                first_saved: true,
                ..*old(self)
            }),
    {
        self.frames = self.frames + 1;
        let save = !self.first_saved;
        self.first_saved = true;
        save
    }

    /// Takes note of an attempt without a frame; returns whether the run goes on.
    pub fn failure(&mut self, failure: CaptureFailure) -> (goes_on: bool)
        requires
            old(self).timeouts < u64::MAX,
            old(self).access_lost < u64::MAX,
        ensures
            goes_on == (failure == CaptureFailure::Timeout || failure == CaptureFailure::PointerOnly),
            *final(self) == (ProbeTally {
                timeouts: if failure == CaptureFailure::Timeout {
                    (old(self).timeouts + 1) as u64
                } else {
                    old(self).timeouts
                },
                access_lost: if failure is AccessLost {
                    (old(self).access_lost + 1) as u64
                } else {
                    old(self).access_lost
                },
                ..*old(self)
            }),
    {
        match failure {
            CaptureFailure::Timeout => {
                self.timeouts = self.timeouts + 1;
                true
            },
            CaptureFailure::PointerOnly => true,
            CaptureFailure::AccessLost(_) => {
                self.access_lost = self.access_lost + 1;
                false
            },
            CaptureFailure::Hresult(_) => false,
            CaptureFailure::Io => false,
        }
    }
}

// ---------------------------------------------------------------------------
// Hashes and bitmaps
// ---------------------------------------------------------------------------

pub const FNV_OFFSET: u64 = 0xcbf2_9ce4_8422_2325;

pub const FNV_PRIME: u64 = 0x100_0000_01b3;

/// The hash after one more byte.
pub open spec fn fnv_step(hash: u64, byte: u8) -> u64 {
    (((hash ^ (byte as u64)) * FNV_PRIME) % 0x1_0000_0000_0000_0000) as u64
}

/// The hash after the first `count` of the bytes from `at` on.
pub open spec fn fnv_bytes(hash: u64, data: Seq<u8>, at: int, count: nat) -> u64
    decreases count,
{
    if count == 0 {
        hash
    } else {
        fnv_step(fnv_bytes(hash, data, at, (count - 1) as nat), data[at + count - 1])
    }
}

/// How many of the first `height` rows are whole; hashing stops at the first one
/// that is not.
pub open spec fn whole_rows(len: int, row_bytes: int, height: nat, stride: int) -> nat
    decreases height,
{
    if height == 0 {
        0
    } else {
        let before = whole_rows(len, row_bytes, (height - 1) as nat, stride);
        if before == height - 1 && (height - 1) * stride + row_bytes <= len {
            height
        } else {
            before
        }
    }
}

/// The hash of the visible bytes of the first `rows` rows.
pub open spec fn fnv_rows(data: Seq<u8>, row_bytes: nat, stride: int, rows: nat) -> u64
    decreases rows,
{
    if rows == 0 {
        FNV_OFFSET
    } else {
        fnv_bytes(
            fnv_rows(data, row_bytes, stride, (rows - 1) as nat),
            data,
            (rows - 1) * stride,
            row_bytes,
        )
    }
}

proof fn lemma_whole_rows_stop(len: int, row_bytes: int, height: nat, stride: int, row: nat)
    requires
        row < height,
        whole_rows(len, row_bytes, row, stride) == row,
        row * stride + row_bytes > len,
    ensures
        whole_rows(len, row_bytes, height, stride) == row,
    decreases height,
{
    if height == row + 1 {
    } else {
        lemma_whole_rows_stop(len, row_bytes, (height - 1) as nat, stride, row);
    }
}

/// The hash of the visible bytes of a frame; rows that the buffer does not hold
/// are left out.
pub fn hash_bgra_rows(data: &[u8], width: u32, height: u32, stride: u32) -> (hash: u64)
    ensures
        hash == fnv_rows(
            data@,
            width as nat * 4,
            stride as int,
            whole_rows(data@.len() as int, width * 4, height as nat, stride as int),
        ),
{
    let row_bytes: u64 = width as u64 * 4;
    let len: u64 = data.len() as u64;
    let mut hash: u64 = FNV_OFFSET;
    let mut row: u32 = 0;
    while row < height
        invariant
            row <= height,
            row_bytes == width * 4,
            len == data.len(),
            whole_rows(len as int, row_bytes as int, row as nat, stride as int) == row,
            hash == fnv_rows(data@, row_bytes as nat, stride as int, row as nat),
        decreases height - row,
    {
        proof {
            assert(0 <= row * stride <= 0xffff_ffff * 0xffff_ffff) by (nonlinear_arith)
                requires
                    0 <= row <= 0xffff_ffff,
                    0 <= stride <= 0xffff_ffff,
            ;
        }
        let start: u64 = row as u64 * stride as u64;
        let end: u128 = start as u128 + row_bytes as u128;
        if end > len as u128 {
            proof {
                lemma_whole_rows_stop(
                    len as int,
                    row_bytes as int,
                    height as nat,
                    stride as int,
                    row as nat,
                );
            }
            return hash;
        }
        let ghost before = hash;
        let from: usize = start as usize;
        let count: usize = row_bytes as usize;
        let mut i: usize = 0;
        while i < count
            invariant
                i <= count,
                from + count <= data.len(),
                hash == fnv_bytes(before, data@, from as int, i as nat),
            decreases count - i,
        {
            let mixed: u64 = hash ^ (data[from + i] as u64);
            hash = mixed.wrapping_mul(FNV_PRIME);
            i += 1;
        }
        row += 1;
    }
    hash
}

/// The hash depends on the visible bytes alone: frames that agree in them have
/// the same hash, whatever stands between their rows.
pub proof fn law_hash_of_visible_bytes(left: Seq<u8>, right: Seq<u8>, row_bytes: nat, stride: int, rows: nat)
    requires
        forall|row: int, i: int|
            0 <= row < rows && 0 <= i < row_bytes ==> #[trigger] left[row * stride + i] == right[row
                * stride + i],
    ensures
        fnv_rows(left, row_bytes, stride, rows) == fnv_rows(right, row_bytes, stride, rows),
    decreases rows,
{
    if rows > 0 {
        law_hash_of_visible_bytes(left, right, row_bytes, stride, (rows - 1) as nat);
        let at = (rows - 1) * stride;
        assert forall|i: int| 0 <= i < row_bytes implies #[trigger] left[at + i] == right[at + i] by {
            let row = rows - 1;
            assert(left[row * stride + i] == right[row * stride + i]);
        }
        lemma_same_bytes(
            fnv_rows(left, row_bytes, stride, (rows - 1) as nat),
            left,
            right,
            at,
            row_bytes,
        );
    }
}

proof fn lemma_same_bytes(hash: u64, left: Seq<u8>, right: Seq<u8>, at: int, count: nat)
    requires
        forall|i: int| 0 <= i < count ==> #[trigger] left[at + i] == right[at + i],
    ensures
        fnv_bytes(hash, left, at, count) == fnv_bytes(hash, right, at, count),
    decreases count,
{
    if count > 0 {
        lemma_same_bytes(hash, left, right, at, (count - 1) as nat);
        let last = count - 1;
        assert(left[at + last] == right[at + last]);
    }
}

/// The bitmap file of a captured frame.
pub fn save_bgra_bmp(width: u32, height: u32, stride: u32, data: &[u8]) -> (res: Result<
    Vec<u8>,
    &'static str,
>)
    ensures
        match res {
            Ok(file) => {
                &&& image_fits(data@.len() as int, stride as int, width as int, height as int)
                &&& file@ == bitmap_bytes(data@, stride as int, width as nat, height as nat, 2835)
            },
            Err(err) => {
                &&& !image_fits(data@.len() as int, stride as int, width as int, height as int)
                &&& err@ == "frame buffer is smaller than BMP dimensions"@
            },
        },
{
    let needed: u64 = mapped_len(stride, height);
    if (data.len() as u64) < needed || (stride as u64) < width as u64 * 4 {
        return Err("frame buffer is smaller than BMP dimensions");
    }
    Ok(encode_bitmap(data, stride as usize, width, height, 2835))
}

/// The bytes between the rows of a snapshot, nothing for an empty display.
pub fn snapshot_stride(width: u32, height: u32) -> (stride: Option<u32>)
    requires
        width * 4 <= u32::MAX,
    ensures
        stride == if width == 0 || height == 0 {
            None
        } else {
            Some((width * 4) as u32)
        },
{
    if width == 0 || height == 0 {
        None
    } else {
        Some(width * 4)
    }
}

// ---------------------------------------------------------------------------
// The log
// ---------------------------------------------------------------------------

/// A line of the log.
pub open spec fn probe_line(ts_ms: nat, seq: nat, event: Seq<char>, fields: Seq<char>) -> Seq<char> {
    let head = "{\"ts_ms\":"@ + decimal(ts_ms) + ",\"seq\":"@ + decimal(seq) + ",\"event\":\""@
        + json_escaped(event) + "\""@;
    if fields.len() == 0 {
        head + "}\n"@
    } else {
        head + ","@ + fields + "}\n"@
    }
}

/// The log's line numbers.
#[derive(Clone, Copy, Debug, PartialEq, Eq, Structural)]
pub struct ProbeLog {
    pub seq: u64,
}

impl ProbeLog {
    pub fn new() -> (log: ProbeLog)
        ensures
            log.seq == 0,
    {
        ProbeLog { seq: 0 }
    }

    /// The next line of the log.
    pub fn event(&mut self, ts_ms: u128, event: &str, fields: &str) -> (line: String)
        requires
            old(self).seq < u64::MAX,
        ensures
            final(self).seq == old(self).seq + 1,
            line@ == probe_line(ts_ms as nat, final(self).seq as nat, event@, fields@),
    {
        self.seq = self.seq + 1;
        let mut line = "{\"ts_ms\":".to_owned();
        push_decimal(&mut line, ts_ms);
        line.append(",\"seq\":");
        push_decimal(&mut line, self.seq as u128);
        line.append(",\"event\":\"");
        line.append(escape_json(event).as_str());
        line.append("\"");
        if fields.is_empty() {
            line.append("}\n");
        } else {
            line.append(",");
            line.append(fields);
            line.append("}\n");
        }
        line
    }
}

/// The field of an error.
pub fn json_error(message: &str) -> (field: String)
    ensures
        field@ == "\"error\":\""@ + json_escaped(message@) + "\""@,
{
    let mut field = "\"error\":\"".to_owned();
    field.append(escape_json(message).as_str());
    field.append("\"");
    field
}

/// The fields of the first event.
pub fn start_fields(options: &DxgiOptions<String>, rect: &DisplayRect) -> (fields: String)
    ensures
        fields@ == "\"display\":"@ + decimal(options.display as nat) + ",\"duration_ms\":"@ + decimal(
            options.duration_sec as nat * 1000,
        ) + ",\"timeout_ms\":"@ + decimal(options.timeout_ms as nat) + ",\"wake\":\""@
            + options.wake.name() + "\",\"mode\":\""@ + options.mode.name()
            + "\",\"rect\":{\"left\":"@ + signed_decimal(rect.left as int) + ",\"top\":"@
            + signed_decimal(rect.top as int) + ",\"right\":"@ + signed_decimal(rect.right as int)
            + ",\"bottom\":"@ + signed_decimal(rect.bottom as int) + "}"@,
{
    let mut fields = "\"display\":".to_owned();
    push_decimal(&mut fields, options.display as u128);
    fields.append(",\"duration_ms\":");
    push_decimal(&mut fields, options.duration_sec as u128 * 1000);
    fields.append(",\"timeout_ms\":");
    push_decimal(&mut fields, options.timeout_ms as u128);
    fields.append(",\"wake\":\"");
    fields.append(options.wake.as_str());
    fields.append("\",\"mode\":\"");
    fields.append(options.mode.as_str());
    fields.append("\",\"rect\":{\"left\":");
    push_signed(&mut fields, rect.left as i64);
    fields.append(",\"top\":");
    push_signed(&mut fields, rect.top as i64);
    fields.append(",\"right\":");
    push_signed(&mut fields, rect.right as i64);
    fields.append(",\"bottom\":");
    push_signed(&mut fields, rect.bottom as i64);
    fields.append("}");
    fields
}

/// The fields of a snapshot.
pub fn snapshot_fields(width: u32, height: u32, stride: u32, hash: u64) -> (fields: String)
    ensures
        fields@ == "\"width\":"@ + decimal(width as nat) + ",\"height\":"@ + decimal(height as nat)
            + ",\"stride\":"@ + decimal(stride as nat) + ",\"hash\":\""@ + hex16(hash as nat) + "\""@,
{
    let mut fields = "\"width\":".to_owned();
    push_decimal(&mut fields, width as u128);
    fields.append(",\"height\":");
    push_decimal(&mut fields, height as u128);
    fields.append(",\"stride\":");
    push_decimal(&mut fields, stride as u128);
    fields.append(",\"hash\":\"");
    push_hex16(&mut fields, hash);
    fields.append("\"");
    fields
}

/// What the duplication interface says of a frame.
#[derive(Clone, Copy, Debug, PartialEq, Eq, Structural)]
pub struct FrameInfo {
    pub accumulated_frames: u32,
    pub last_present_time: i64,
    pub last_mouse_update_time: i64,
    pub metadata_bytes: u32,
    pub pointer_shape_bytes: u32,
}

/// The fields that frames and pointer updates share.
pub open spec fn info_json(info: FrameInfo) -> Seq<char> {
    ",\"accumulated_frames\":"@ + decimal(info.accumulated_frames as nat) + ",\"last_present_time\":"@
        + signed_decimal(info.last_present_time as int) + ",\"last_mouse_update_time\":"@ + signed_decimal(
        info.last_mouse_update_time as int,
    ) + ",\"metadata_bytes\":"@ + decimal(info.metadata_bytes as nat) + ",\"pointer_shape_bytes\":"@
        + decimal(info.pointer_shape_bytes as nat)
}

fn push_info(fields: &mut String, info: &FrameInfo)
    ensures
        final(fields)@ == old(fields)@ + info_json(*info),
{
    fields.append(",\"accumulated_frames\":");
    push_decimal(fields, info.accumulated_frames as u128);
    fields.append(",\"last_present_time\":");
    push_signed(fields, info.last_present_time);
    fields.append(",\"last_mouse_update_time\":");
    push_signed(fields, info.last_mouse_update_time);
    fields.append(",\"metadata_bytes\":");
    push_decimal(fields, info.metadata_bytes as u128);
    fields.append(",\"pointer_shape_bytes\":");
    push_decimal(fields, info.pointer_shape_bytes as u128);
    assert(fields@ =~= old(fields)@ + info_json(*info));
}

/// The fields of a frame.
pub fn frame_fields(
    attempt: u64,
    wait_ms: u128,
    info: &FrameInfo,
    width: u32,
    height: u32,
    row_pitch: u32,
    hash: u64,
) -> (fields: String)
    ensures
        fields@ == "\"attempt\":"@ + decimal(attempt as nat) + ",\"wait_ms\":"@ + decimal(wait_ms as nat)
            + info_json(*info) + ",\"width\":"@ + decimal(width as nat) + ",\"height\":"@ + decimal(
            height as nat,
        ) + ",\"row_pitch\":"@ + decimal(row_pitch as nat) + ",\"hash\":\""@ + hex16(hash as nat) + "\""@,
{
    let mut fields = "\"attempt\":".to_owned();
    push_decimal(&mut fields, attempt as u128);
    fields.append(",\"wait_ms\":");
    push_decimal(&mut fields, wait_ms);
    push_info(&mut fields, info);
    fields.append(",\"width\":");
    push_decimal(&mut fields, width as u128);
    fields.append(",\"height\":");
    push_decimal(&mut fields, height as u128);
    fields.append(",\"row_pitch\":");
    push_decimal(&mut fields, row_pitch as u128);
    fields.append(",\"hash\":\"");
    push_hex16(&mut fields, hash);
    fields.append("\"");
    fields
}

/// The fields of a pointer update.
pub fn pointer_fields(attempt: u64, info: &FrameInfo) -> (fields: String)
    ensures
        fields@ == "\"attempt\":"@ + decimal(attempt as nat) + info_json(*info),
{
    let mut fields = "\"attempt\":".to_owned();
    push_decimal(&mut fields, attempt as u128);
    push_info(&mut fields, info);
    fields
}

/// The fields of a timeout.
pub fn timeout_fields(attempt: u64, timeout_ms: u32) -> (fields: String)
    ensures
        fields@ == "\"attempt\":"@ + decimal(attempt as nat) + ",\"timeout_ms\":"@ + decimal(
            timeout_ms as nat,
        ),
{
    let mut fields = "\"attempt\":".to_owned();
    push_decimal(&mut fields, attempt as u128);
    fields.append(",\"timeout_ms\":");
    push_decimal(&mut fields, timeout_ms as u128);
    fields
}

/// The fields of a failed call.
pub fn hresult_fields(attempt: u64, hr: i32) -> (fields: String)
    ensures
        fields@ == "\"attempt\":"@ + decimal(attempt as nat) + ",\"hr\":\"0x"@ + hex8(result_code(hr))
            + "\""@,
{
    let mut fields = "\"attempt\":".to_owned();
    push_decimal(&mut fields, attempt as u128);
    fields.append(",\"hr\":\"0x");
    push_hex8(&mut fields, code_of(hr));
    fields.append("\"");
    fields
}

/// The fields of an error that is reported by its text.
pub fn io_error_fields(attempt: u64, message: &str) -> (fields: String)
    ensures
        fields@ == "\"attempt\":"@ + decimal(attempt as nat) + ","@ + ("\"error\":\""@ + json_escaped(
            message@,
        ) + "\""@),
{
    let mut fields = "\"attempt\":".to_owned();
    push_decimal(&mut fields, attempt as u128);
    fields.append(",");
    fields.append(json_error(message).as_str());
    fields
}

/// The fields of the event that tells of a new duplication; the mode, the format
/// and the rotation are those of its description.
pub fn created_fields(
    width: u32,
    height: u32,
    mode_width: u32,
    mode_height: u32,
    format: u32,
    rotation: u32,
) -> (fields: String)
    ensures
        fields@ == "\"width\":"@ + decimal(width as nat) + ",\"height\":"@ + decimal(height as nat)
            + ",\"mode_desc_width\":"@ + decimal(mode_width as nat) + ",\"mode_desc_height\":"@
            + decimal(mode_height as nat) + ",\"format\":"@ + decimal(format as nat)
            + ",\"rotation\":"@ + decimal(rotation as nat),
{
    let mut fields = "\"width\":".to_owned();
    push_decimal(&mut fields, width as u128);
    fields.append(",\"height\":");
    push_decimal(&mut fields, height as u128);
    fields.append(",\"mode_desc_width\":");
    push_decimal(&mut fields, mode_width as u128);
    fields.append(",\"mode_desc_height\":");
    push_decimal(&mut fields, mode_height as u128);
    fields.append(",\"format\":");
    push_decimal(&mut fields, format as u128);
    fields.append(",\"rotation\":");
    push_decimal(&mut fields, rotation as u128);
    fields
}

/// The fields of the last event.
pub fn summary_fields(tally: &ProbeTally) -> (fields: String)
    ensures
        fields@ == "\"attempts\":"@ + decimal(tally.attempts as nat) + ",\"frames\":"@ + decimal(
            tally.frames as nat,
        ) + ",\"timeouts\":"@ + decimal(tally.timeouts as nat) + ",\"access_lost\":"@ + decimal(
            tally.access_lost as nat,
        ),
{
    let mut fields = "\"attempts\":".to_owned();
    push_decimal(&mut fields, tally.attempts as u128);
    fields.append(",\"frames\":");
    push_decimal(&mut fields, tally.frames as u128);
    fields.append(",\"timeouts\":");
    push_decimal(&mut fields, tally.timeouts as u128);
    fields.append(",\"access_lost\":");
    push_decimal(&mut fields, tally.access_lost as u128);
    fields
}

} // verus!
