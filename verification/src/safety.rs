//! What the safety probes send, expect and conclude. The caller runs the code
//! under test.
use vstd::prelude::*;
use vstd::string::*;

use crate::bytes::{le_bytes, push_le32};
use crate::parse::{parse_unsigned, read_unsigned, usize_max};
use crate::text::{decimal8, push_decimal8, text_eq};

verus! {

/// The process status of a probe: two where the finding was reproduced and the
/// environment expects hardened code, else zero. `expect_hardened` is the
/// variable's text.
pub fn exit_code(reproduced: bool, expect_hardened: Option<&str>) -> (code: u8)
    ensures
        code == if reproduced && (expect_hardened matches Some(text) && text@ == "1"@) {
            2u8
        } else {
            0u8
        },
{
    let expected = match expect_hardened {
        Some(text) => text_eq(text, "1"),
        None => false,
    };
    if reproduced && expected {
        2
    } else {
        0
    }
}

/// The number that an optional argument writes, else the default.
pub fn argument_or(argument: Option<&str>, default: usize) -> (value: usize)
    ensures
        match argument {
            Some(text) => match read_unsigned(text@, usize::MAX as nat) {
                Ok(number) => value == number,
                Err(_) => value == default,
            },
            None => value == default,
        },
{
    match argument {
        Some(text) => match parse_unsigned(text, usize_max()) {
            Ok(number) => {
                proof {
                    crate::parse::lemma_read_bounded(text@, usize::MAX as nat);
                }
                number as usize
            },
            Err(_) => default,
        },
        None => default,
    }
}

// ---------------------------------------------------------------------------
// Packet headers
// ---------------------------------------------------------------------------

/// The number in a four-byte packet header: the length above two bits that are
/// set.
pub open spec fn head_value(len: nat) -> nat {
    len % 0x4000_0000 * 4 + 3
}

/// A packet header without its packet.
pub fn encode_head_only(len: usize) -> (header: Vec<u8>)
    ensures
        header@ == le_bytes(head_value(len as nat), 4),
{
    let value: u32 = (len as u64 % 0x4000_0000) as u32 * 4 + 3;
    let mut header: Vec<u8> = Vec::new();
    push_le32(&mut header, value);
    assert(header@ =~= le_bytes(head_value(len as nat), 4));
    header
}

/// A header announces exactly the length it was made for, up to the largest one
/// that it can hold.
pub proof fn law_head_announces_length(len: nat)
    requires
        len < 0x4000_0000,
    ensures
        head_value(len) / 4 == len,
        head_value(len) % 4 == 3,
{
}

/// Whether a decoder took more than a megabyte on the word of a header.
pub fn allocation_reproduced(before: usize, after: usize) -> (reproduced: bool)
    ensures
        reproduced == (after - before > 1_048_576),
{
    after.saturating_sub(before) > 1_048_576
}

// ---------------------------------------------------------------------------
// File names
// ---------------------------------------------------------------------------

/// A file name offered to a transfer, and whether it has to be refused.
#[derive(Clone, Copy, Debug)]
pub struct PathCase {
    pub name: &'static str,
    pub expected_reject: bool,
}

/// The names that every system is tested with.
pub fn path_cases() -> (cases: Vec<PathCase>)
    ensures
        cases@.len() == 4,
        cases@[0].name@ == "../escape.txt"@ && cases@[0].expected_reject,
        cases@[1].name@ == "/tmp/escape.txt"@ && cases@[1].expected_reject,
        cases@[2].name@ == "safe/file.txt"@ && !cases@[2].expected_reject,
        cases@[3].name@ == "bad\0name.txt"@ && cases@[3].expected_reject,
{
    let mut cases: Vec<PathCase> = Vec::new();
    cases.push(PathCase { name: "../escape.txt", expected_reject: true });
    cases.push(PathCase { name: "/tmp/escape.txt", expected_reject: true });
    cases.push(PathCase { name: "safe/file.txt", expected_reject: false });
    cases.push(PathCase { name: "bad\0name.txt", expected_reject: true });
    cases
}

/// The name that systems with symbolic links are tested with.
pub fn link_case() -> (case: PathCase)
    ensures
        case.name@ == "link/escape.txt"@,
        case.expected_reject,
{
    PathCase { name: "link/escape.txt", expected_reject: true }
}

/// Whether a name was treated as expected.
pub fn case_passes(rejected: bool, expected_reject: bool) -> (ok: bool)
    ensures
        ok == (rejected == expected_reject),
{
    rejected == expected_reject
}

// ---------------------------------------------------------------------------
// Sockets between processes
// ---------------------------------------------------------------------------

/// Whether a directory can be written by its group or by everyone; one whose
/// mode is unknown counts as such.
pub open spec fn is_open_directory(mode: Option<u32>) -> bool {
    match mode {
        Some(mode) => mode & 0o022 != 0,
        None => true,
    }
}

fn open_directory(mode: Option<u32>) -> (open: bool)
    ensures
        open == is_open_directory(mode),
{
    match mode {
        Some(mode) => mode & 0o022 != 0,
        None => true,
    }
}

/// Whether the user's own directory shows the finding.
pub fn normal_reproduced(current_uid_matches: bool, dir_mode: Option<u32>) -> (reproduced: bool)
    ensures
        reproduced == (!current_uid_matches || is_open_directory(dir_mode)),
{
    !current_uid_matches || open_directory(dir_mode)
}

/// What was seen of the paths of a service.
#[derive(Clone, Copy, Debug, PartialEq, Eq, Structural)]
pub struct ServicePaths {
    pub service_is_service: bool,
    pub uinput_is_service: bool,
    pub probe_is_service: bool,
    pub same_directory: bool,
    pub cross_uid_shared: bool,
    pub service_mode: Option<u32>,
    pub uinput_mode: Option<u32>,
}

/// Whether the directories of a service show the finding.
pub fn service_reproduced(paths: &ServicePaths) -> (reproduced: bool)
    ensures
        !reproduced <==> {
            &&& paths.service_is_service
            &&& paths.uinput_is_service
            &&& !paths.probe_is_service
            &&& paths.same_directory
            &&& paths.cross_uid_shared
            &&& !is_open_directory(paths.service_mode)
            &&& !is_open_directory(paths.uinput_mode)
        },
{
    !paths.service_is_service || !paths.uinput_is_service || paths.probe_is_service
        || !paths.same_directory || !paths.cross_uid_shared || open_directory(paths.service_mode)
        || open_directory(paths.uinput_mode)
}

/// Whether the target of a link shows the finding: its mode has changed.
pub fn symlink_reproduced(target_mode: Option<u32>) -> (reproduced: bool)
    ensures
        reproduced == (target_mode != Some(0o700u32)),
{
    match target_mode {
        Some(mode) => mode != 0o700,
        None => true,
    }
}

/// Whether two users share the service paths and nothing else; each flag says
/// whether the paths of two users are the same.
pub fn shared_across_users(service: bool, uinput: bool, probe: bool) -> (shared: bool)
    ensures
        shared == (service && uinput && !probe),
{
    service && uinput && !probe
}

// ---------------------------------------------------------------------------
// Requests and compression
// ---------------------------------------------------------------------------

/// The name of a made-up peer.
pub open spec fn peer_name(index: nat) -> Seq<char> {
    "safety-peer-"@ + decimal8(index)
}

/// The names of made-up peers.
pub fn peer_names(count: usize) -> (names: Vec<String>)
    ensures
        names@.len() == count,
        forall|i: int| 0 <= i < count ==> #[trigger] names@[i]@ == peer_name(i as nat),
{
    let mut names: Vec<String> = Vec::new();
    let mut i: usize = 0;
    while i < count
        invariant
            i <= count,
            names.len() == i,
            forall|k: int| 0 <= k < i ==> #[trigger] names@[k]@ == peer_name(k as nat),
        decreases count - i,
    {
        let mut name = "safety-peer-".to_owned();
        push_decimal8(&mut name, i as u128);
        names.push(name);
        i += 1;
    }
    names
}

/// Whether data came back whole from less than a hundredth of its size.
pub fn expansion_reproduced(plain_len: usize, compressed_len: usize, output_len: usize) -> (reproduced: bool)
    ensures
        reproduced == (output_len == plain_len && compressed_len != 0 && output_len > 100
            * compressed_len),
{
    output_len == plain_len && compressed_len != 0 && output_len as u128 > 100 * compressed_len as u128
}

} // verus!
