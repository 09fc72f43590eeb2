//! The debug probe: what it looks for, how it chooses and how it reports. The
//! caller asks the system.
use vstd::prelude::*;
use vstd::string::*;

use crate::netprobe::config::optional_text;
use crate::parse::{contains_text, holds_text, parse_unsigned, read_unsigned, views, IntError};
use crate::text::{
    bool_text, chars_of, decimal, json_quoted, json_string, push_bool, push_decimal, push_upper_hex, text_eq,
    upper_hex,
};

verus! {

// ---------------------------------------------------------------------------
// Options
// ---------------------------------------------------------------------------

/// What the probe is asked to do; the directory is chosen by default where none
/// is given.
#[derive(Debug)]
pub struct DebugOptions<S> {
    pub out_dir: Option<S>,
    pub duration_sec: u64,
    pub interval_ms: u64,
    pub dump: bool,
    pub help: bool,
}

impl View for DebugOptions<String> {
    type V = DebugOptions<Seq<char>>;

    open spec fn view(&self) -> DebugOptions<Seq<char>> {
        DebugOptions {
            out_dir: optional_text(self.out_dir),
            duration_sec: self.duration_sec,
            interval_ms: self.interval_ms,
            dump: self.dump,
            help: self.help,
        }
    }
}

/// The value behind the option at `at`.
pub open spec fn next_value(args: Seq<Seq<char>>, at: int) -> Result<Seq<char>, Seq<char>> {
    if at + 1 < args.len() {
        Ok(args[at + 1])
    } else {
        Err(args[at] + " requires a value"@)
    }
}

/// The words for a value that is no number.
pub open spec fn invalid_number(name: Seq<char>, value: Seq<char>, err: IntError) -> Seq<char> {
    "invalid "@ + name + " value '"@ + value + "': "@ + err.reason()
}

/// The number behind the option at `at`.
pub open spec fn next_number(args: Seq<Seq<char>>, at: int, max: nat) -> Result<nat, Seq<char>> {
    match next_value(args, at) {
        Err(err) => Err(err),
        Ok(value) => match read_unsigned(value, max) {
            Ok(number) => Ok(number),
            Err(err) => Err(invalid_number(args[at], value, err)),
        },
    }
}

/// The value behind the option `name` at `at`.
pub fn next_arg(args: &[String], at: usize, name: &str) -> (res: Result<String, String>)
    requires
        at < args.len(),
        name@ == args@[at as int]@,
    ensures
        match res {
            Ok(value) => {
                &&& next_value(views(args@), at as int) == Ok::<Seq<char>, Seq<char>>(value@)
                &&& at + 1 < args.len()
            },
            Err(err) => next_value(views(args@), at as int) == Err::<Seq<char>, Seq<char>>(err@),
        },
{
    if at + 1 < args.len() {
        Ok(args[at + 1].clone())
    } else {
        let mut err = name.to_owned();
        err.append(" requires a value");
        Err(err)
    }
}

/// The number behind the option `name` at `at`.
pub fn parse_next(args: &[String], at: usize, name: &str, max: u64) -> (res: Result<u64, String>)
    requires
        at < args.len(),
        name@ == args@[at as int]@,
    ensures
        match res {
            Ok(number) => {
                &&& next_number(views(args@), at as int, max as nat) == Ok::<nat, Seq<char>>(
                    number as nat,
                )
                &&& at + 1 < args.len()
                &&& number <= max
            },
            Err(err) => next_number(views(args@), at as int, max as nat) == Err::<nat, Seq<char>>(
                err@,
            ),
        },
{
    let value = next_arg(args, at, name)?;
    match parse_unsigned(value.as_str(), max) {
        Ok(number) => {
            proof {
                crate::parse::lemma_read_bounded(value@, max as nat);
            }
            Ok(number)
        },
        Err(err) => {
            let mut text = "invalid ".to_owned();
            text.append(name);
            text.append(" value '");
            text.append(value.as_str());
            text.append("': ");
            text.append(err.message());
            Err(text)
        },
    }
}

pub open spec fn debug_defaults() -> DebugOptions<Seq<char>> {
    DebugOptions { out_dir: None, duration_sec: 30, interval_ms: 1000, dump: false, help: false }
}

/// The options after the arguments from `at` on.
pub open spec fn debug_options(state: DebugOptions<Seq<char>>, args: Seq<Seq<char>>, at: int) -> Result<
    DebugOptions<Seq<char>>,
    Seq<char>,
>
    decreases args.len() - at,
{
    if at >= args.len() {
        Ok(state)
    } else if args[at] == "--out"@ {
        match next_value(args, at) {
            Ok(value) => debug_options(DebugOptions { out_dir: Some(value), ..state }, args, at + 2),
            Err(err) => Err(err),
        }
    } else if args[at] == "--duration"@ {
        match next_number(args, at, u64::MAX as nat) {
            Ok(value) => debug_options(
                DebugOptions { duration_sec: value as u64, ..state },
                args,
                at + 2,
            ),
            Err(err) => Err(err),
        }
    } else if args[at] == "--interval-ms"@ {
        match next_number(args, at, u64::MAX as nat) {
            Ok(value) => debug_options(
                DebugOptions { interval_ms: value as u64, ..state },
                args,
                at + 2,
            ),
            Err(err) => Err(err),
        }
    } else if args[at] == "--dump"@ {
        debug_options(DebugOptions { dump: true, ..state }, args, at + 1)
    } else if args[at] == "--help"@ || args[at] == "-h"@ {
        debug_options(DebugOptions { help: true, ..state }, args, at + 1)
    } else {
        Err("unknown argument '"@ + args[at] + "'"@)
    }
}

/// Parses the arguments behind the program's name.
pub fn parse_debug_options(args: &[String]) -> (res: Result<DebugOptions<String>, String>)
    ensures
        match res {
            Ok(options) => debug_options(debug_defaults(), views(args@), 0) == Ok::<
                DebugOptions<Seq<char>>,
                Seq<char>,
            >(options@),
            Err(err) => debug_options(debug_defaults(), views(args@), 0) == Err::<
                DebugOptions<Seq<char>>,
                Seq<char>,
            >(err@),
        },
{
    let mut options = DebugOptions::<String> {
        out_dir: None,
        duration_sec: 30,
        interval_ms: 1000,
        dump: false,
        help: false,
    };
    let mut at: usize = 0;
    while at < args.len()
        invariant
            at <= args.len(),
            debug_options(debug_defaults(), views(args@), 0) == debug_options(
                options@,
                views(args@),
                at as int,
            ),
        decreases args.len() - at,
    {
        let name = args[at].as_str();
        assert(views(args@)[at as int] == name@);
        if text_eq(name, "--out") {
            options.out_dir = Some(next_arg(args, at, name)?);
            at += 2;
        } else if text_eq(name, "--duration") {
            options.duration_sec = parse_next(args, at, name, u64::MAX)?;
            at += 2;
        } else if text_eq(name, "--interval-ms") {
            options.interval_ms = parse_next(args, at, name, u64::MAX)?;
            at += 2;
        } else if text_eq(name, "--dump") {
            options.dump = true;
            at += 1;
        } else if text_eq(name, "--help") || text_eq(name, "-h") {
            options.help = true;
            at += 1;
        } else {
            let mut err = "unknown argument '".to_owned();
            err.append(name);
            err.append("'");
            return Err(err);
        }
    }
    Ok(options)
}

/// Whether the probe goes on sampling after so many nanoseconds.
pub fn keeps_sampling(elapsed_ns: u64, duration_sec: u64) -> (yes: bool)
    ensures
        yes == (elapsed_ns < duration_sec * 1_000_000_000),
{
    (elapsed_ns as u128) < duration_sec as u128 * 1_000_000_000
}

// ---------------------------------------------------------------------------
// What is looked for
// ---------------------------------------------------------------------------

/// The code of a character, that of the small letter for an ASCII capital.
pub open spec fn ascii_small(ch: char) -> char {
    if 0x41 <= ch as u32 <= 0x5a {
        ((ch as u32 + 0x20) as u32) as char
    } else {
        ch
    }
}

/// A text with small letters for ASCII capitals.
pub open spec fn ascii_lower(text: Seq<char>) -> Seq<char> {
    text.map_values(|ch: char| ascii_small(ch))
}

fn to_small(ch: char) -> (small: char)
    ensures
        small == ascii_small(ch),
{
    match ch {
        'A' => 'a',
        'B' => 'b',
        'C' => 'c',
        'D' => 'd',
        'E' => 'e',
        'F' => 'f',
        'G' => 'g',
        'H' => 'h',
        'I' => 'i',
        'J' => 'j',
        'K' => 'k',
        'L' => 'l',
        'M' => 'm',
        'N' => 'n',
        'O' => 'o',
        'P' => 'p',
        'Q' => 'q',
        'R' => 'r',
        'S' => 's',
        'T' => 't',
        'U' => 'u',
        'V' => 'v',
        'W' => 'w',
        'X' => 'x',
        'Y' => 'y',
        'Z' => 'z',
        _ => ch,
    }
}

/// A text with small letters for ASCII capitals.
pub fn to_ascii_lower(text: &str) -> (lower: String)
    ensures
        lower@ == ascii_lower(text@),
{
    let chars = chars_of(text);
    let mut lower = String::new();
    let mut i: usize = 0;
    assert(lower@ =~= ascii_lower(chars@.take(0)));
    while i < chars.len()
        invariant
            i <= chars.len(),
            lower@ == ascii_lower(chars@.take(i as int)),
        decreases chars.len() - i,
    {
        lower.push(to_small(chars[i]));
        i += 1;
        assert(lower@ =~= ascii_lower(chars@.take(i as int)));
    }
    assert(chars@.take(i as int) =~= text@);
    lower
}

/// Whether an executable is RustAdmin's, whatever the case of its name.
pub fn is_rustadmin_process(name: &str) -> (yes: bool)
    ensures
        yes == (ascii_lower(name@) == "rustadmin.exe"@),
{
    text_eq(to_ascii_lower(name).as_str(), "rustadmin.exe")
}

/// Whether a pipe is RustAdmin's: its name holds the program's.
pub fn is_rustadmin_pipe(name: &str) -> (yes: bool)
    ensures
        yes == holds_text(ascii_lower(name@), "rustadmin"@),
{
    contains_text(to_ascii_lower(name).as_str(), "rustadmin")
}

#[derive(Debug)]
pub struct ProcessInfo {
    pub pid: u32,
    pub parent_pid: u32,
    pub thread_count: u32,
    pub name: String,
}

#[derive(Debug)]
pub struct WindowInfo {
    pub hwnd: usize,
    pub pid: u32,
    pub title: String,
    pub responsive: bool,
    pub elapsed_ms: u128,
    pub error: u32,
}

/// Whether a process is in a list.
pub fn lists_process(processes: &[ProcessInfo], pid: u32) -> (found: bool)
    ensures
        found == exists|i: int| 0 <= i < processes@.len() && (#[trigger] processes@[i]).pid == pid,
{
    let mut i: usize = 0;
    while i < processes.len()
        invariant
            i <= processes.len(),
            forall|k: int| 0 <= k < i ==> (#[trigger] processes@[k]).pid != pid,
        decreases processes.len() - i,
    {
        if processes[i].pid == pid {
            return true;
        }
        i += 1;
    }
    false
}

// ---------------------------------------------------------------------------
// Newest files
// ---------------------------------------------------------------------------

/// Whether file `one` comes before file `other`: it is newer, or as new and
/// listed later.
pub open spec fn comes_before(modified: Seq<i128>, one: int, other: int) -> bool {
    modified[one] > modified[other] || (modified[one] == modified[other] && one > other)
}

/// Whether `chosen` is the newest `limit` files, the newest first.
pub open spec fn is_newest(modified: Seq<i128>, limit: int, chosen: Seq<usize>) -> bool {
    &&& chosen.len() == if modified.len() < limit { modified.len() as int } else { limit }
    &&& forall|i: int| 0 <= i < chosen.len() ==> 0 <= #[trigger] chosen[i] < modified.len()
    &&& forall|i: int, j: int|
        0 <= i < j < chosen.len() ==> comes_before(
            modified,
            #[trigger] chosen[i] as int,
            #[trigger] chosen[j] as int,
        )
    &&& forall|other: int, i: int|
        0 <= other < modified.len() && !chosen.contains(other as usize) && 0 <= i < chosen.len()
            ==> #[trigger] comes_before(modified, chosen[i] as int, other)
}

/// The newest `limit` files, the newest first; of equally new ones the one that
/// is listed later comes first. `modified` holds the times of the files.
pub fn newest_files(modified: &[i128], limit: usize) -> (chosen: Vec<usize>)
    ensures
        is_newest(modified@, limit as int, chosen@),
{
    let count: usize = if modified.len() < limit { modified.len() } else { limit };
    let mut taken: Vec<bool> = vec![false; modified.len()];
    let mut chosen: Vec<usize> = Vec::new();
    while chosen.len() < count
        invariant
            count <= modified.len(),
            chosen.len() <= count,
            taken.len() == modified.len(),
            forall|i: int| 0 <= i < chosen.len() ==> 0 <= #[trigger] chosen@[i] < modified.len(),
            forall|i: int, j: int|
                0 <= i < j < chosen.len() ==> comes_before(
                    modified@,
                    #[trigger] chosen@[i] as int,
                    #[trigger] chosen@[j] as int,
                ),
            forall|k: int| 0 <= k < modified.len() ==> (#[trigger] taken@[k] <==> chosen@.contains(k as usize)),
            forall|other: int, i: int|
                0 <= other < modified.len() && !taken@[other] && 0 <= i < chosen.len()
                    ==> #[trigger] comes_before(modified@, chosen@[i] as int, other),
        decreases count - chosen.len(),
    {
        proof {
            lemma_some_left(taken@, chosen@, modified.len() as int);
        }
        let mut best: Option<usize> = None;
        let mut i: usize = 0;
        while i < modified.len()
            invariant
                i <= modified.len(),
                taken.len() == modified.len(),
                match best {
                    Some(best) => {
                        &&& best < i
                        &&& !taken@[best as int]
                        &&& forall|k: int|
                            0 <= k < i && !#[trigger] taken@[k] && k != best ==> comes_before(
                                modified@,
                                best as int,
                                k,
                            )
                    },
                    None => forall|k: int| 0 <= k < i ==> #[trigger] taken@[k],
                },
            decreases modified.len() - i,
        {
            if !taken[i] {
                match best {
                    Some(place) => {
                        if modified[i] >= modified[place] {
                            best = Some(i);
                        }
                    },
                    None => {
                        best = Some(i);
                    },
                }
            }
            i += 1;
        }
        if let Some(place) = best {
            let ghost before = chosen@;
            let ghost marks = taken@;
            taken.set(place, true);
            chosen.push(place);
            proof {
                assert forall|k: int| 0 <= k < modified.len() implies (#[trigger] taken@[k] <==> chosen@.contains(
                    k as usize,
                )) by {
                    if before.contains(k as usize) {
                        let at = before.index_of(k as usize);
                        assert(chosen@[at] == k as usize);
                    }
                    if k == place {
                        assert(chosen@[before.len() as int] == place);
                    }
                    if chosen@.contains(k as usize) && k != place {
                        let at = chosen@.index_of(k as usize);
                        assert(before[at] == k as usize);
                    }
                    assert(k != place ==> taken@[k] == marks[k]);
                }
                assert forall|a: int, b: int| 0 <= a < b < chosen.len() implies comes_before(
                    modified@,
                    #[trigger] chosen@[a] as int,
                    #[trigger] chosen@[b] as int,
                ) by {
                    if b == before.len() {
                        assert(!marks[place as int]);
                        assert(comes_before(modified@, before[a] as int, place as int));
                    } else {
                        assert(chosen@[a] == before[a] && chosen@[b] == before[b]);
                    }
                }
                assert forall|other: int, a: int|
                    0 <= other < modified.len() && !taken@[other] && 0 <= a
                        < chosen.len() implies #[trigger] comes_before(
                    modified@,
                    chosen@[a] as int,
                    other,
                ) by {
                    assert(!marks[other]);
                    if a < before.len() {
                        assert(comes_before(modified@, before[a] as int, other));
                    }
                }
            }
        } else {
            assert(false);
        }
    }
    proof {
        assert forall|other: int, i: int|
            0 <= other < modified@.len() && !chosen@.contains(other as usize) && 0 <= i
                < chosen.len() implies #[trigger] comes_before(
            modified@,
            chosen@[i] as int,
            other,
        ) by {
            assert(!taken@[other]);
        }
    }
    chosen
}

/// With fewer files chosen than there are, one is left.
proof fn lemma_some_left(taken: Seq<bool>, chosen: Seq<usize>, count: int)
    requires
        taken.len() == count,
        count <= usize::MAX,
        chosen.len() < count,
        forall|k: int| 0 <= k < count ==> (#[trigger] taken[k] <==> chosen.contains(k as usize)),
    ensures
        exists|k: int| 0 <= k < count && !#[trigger] taken[k],
{
    if forall|k: int| 0 <= k < count ==> #[trigger] taken[k] {
        let all = Set::new(|k: usize| k < count);
        assert forall|k: usize| all.contains(k) implies chosen.to_set().contains(k) by {
            assert(taken[k as int]);
            assert(chosen.contains(k));
        }
        lemma_below_len(count as nat);
        chosen.lemma_cardinality_of_set();
        vstd::set_lib::lemma_len_subset(all, chosen.to_set());
    }
}

proof fn lemma_below_len(count: nat)
    requires
        count <= usize::MAX,
    ensures
        Set::new(|k: usize| k < count).finite(),
        Set::new(|k: usize| k < count).len() == count,
    decreases count,
{
    let all = Set::new(|k: usize| k < count);
    if count == 0 {
        assert(all =~= Set::empty());
    } else {
        let fewer = (count - 1) as nat;
        lemma_below_len(fewer);
        assert(all =~= Set::new(|k: usize| k < fewer).insert(fewer as usize));
    }
}

// ---------------------------------------------------------------------------
// Reports
// ---------------------------------------------------------------------------

/// Texts joined by commas.
pub open spec fn joined(parts: Seq<Seq<char>>) -> Seq<char>
    decreases parts.len(),
{
    if parts.len() == 0 {
        seq![]
    } else if parts.len() == 1 {
        parts[0]
    } else {
        joined(parts.drop_last()) + seq![','] + parts.last()
    }
}

/// A JSON list of values.
pub open spec fn json_list(values: Seq<Seq<char>>) -> Seq<char> {
    seq!['['] + joined(values) + seq![']']
}

/// A process as a JSON object.
pub open spec fn process_json(process: ProcessInfo) -> Seq<char> {
    "{\"pid\":"@ + decimal(process.pid as nat) + ",\"parent_pid\":"@ + decimal(
        process.parent_pid as nat,
    ) + ",\"thread_count\":"@ + decimal(process.thread_count as nat) + ",\"name\":"@ + json_quoted(
        process.name@,
    ) + "}"@
}

/// A window as a JSON object.
pub open spec fn window_json(window: WindowInfo) -> Seq<char> {
    "{\"hwnd\":\"0x"@ + upper_hex(window.hwnd as nat) + "\",\"pid\":"@ + decimal(window.pid as nat)
        + ",\"title\":"@ + json_quoted(window.title@) + ",\"responsive\":"@ + bool_text(
        window.responsive,
    ) + ",\"elapsed_ms\":"@ + decimal(window.elapsed_ms as nat) + ",\"error\":"@ + decimal(
        window.error as nat,
    ) + "}"@
}

fn process_object(process: &ProcessInfo) -> (text: String)
    ensures
        text@ == process_json(*process),
{
    let mut text = "{\"pid\":".to_owned();
    push_decimal(&mut text, process.pid as u128);
    text.append(",\"parent_pid\":");
    push_decimal(&mut text, process.parent_pid as u128);
    text.append(",\"thread_count\":");
    push_decimal(&mut text, process.thread_count as u128);
    text.append(",\"name\":");
    text.append(json_string(process.name.as_str()).as_str());
    text.append("}");
    text
}

fn window_object(window: &WindowInfo) -> (text: String)
    ensures
        text@ == window_json(*window),
{
    let mut text = "{\"hwnd\":\"0x".to_owned();
    push_upper_hex(&mut text, window.hwnd as u64);
    text.append("\",\"pid\":");
    push_decimal(&mut text, window.pid as u128);
    text.append(",\"title\":");
    text.append(json_string(window.title.as_str()).as_str());
    text.append(",\"responsive\":");
    push_bool(&mut text, window.responsive);
    text.append(",\"elapsed_ms\":");
    push_decimal(&mut text, window.elapsed_ms);
    text.append(",\"error\":");
    push_decimal(&mut text, window.error as u128);
    text.append("}");
    text
}

fn list_text(values: &[String]) -> (text: String)
    ensures
        text@ == json_list(views(values@)),
{
    let mut text = String::new();
    text.push('[');
    let ghost all = views(values@);
    let mut i: usize = 0;
    assert(all.take(0) =~= seq![]);
    assert(text@ =~= seq!['['] + joined(all.take(0)));
    while i < values.len()
        invariant
            i <= values.len(),
            all == views(values@),
            text@ == seq!['['] + joined(all.take(i as int)),
        decreases values.len() - i,
    {
        let ghost before = text@;
        proof {
            assert(all.take(i + 1).drop_last() =~= all.take(i as int));
            assert(all.take(i + 1).last() == values@[i as int]@);
        }
        if i > 0 {
            text.push(',');
        }
        text.append(values[i].as_str());
        assert(text@ =~= seq!['['] + joined(all.take(i + 1)));
        i += 1;
    }
    assert(all.take(i as int) =~= all);
    text.push(']');
    assert(text@ =~= json_list(all));
    text
}

pub fn process_list_json(processes: &[ProcessInfo]) -> (text: String)
    ensures
        text@ == json_list(processes@.map_values(|process: ProcessInfo| process_json(process))),
{
    let mut items: Vec<String> = Vec::new();
    let mut i: usize = 0;
    while i < processes.len()
        invariant
            i <= processes.len(),
            items.len() == i,
            forall|k: int| 0 <= k < i ==> #[trigger] items@[k]@ == process_json(processes@[k]),
        decreases processes.len() - i,
    {
        items.push(process_object(&processes[i]));
        i += 1;
    }
    assert(views(items@) =~= processes@.map_values(|process: ProcessInfo| process_json(process)));
    list_text(items.as_slice())
}

pub fn window_list_json(windows: &[WindowInfo]) -> (text: String)
    ensures
        text@ == json_list(windows@.map_values(|window: WindowInfo| window_json(window))),
{
    let mut items: Vec<String> = Vec::new();
    let mut i: usize = 0;
    while i < windows.len()
        invariant
            i <= windows.len(),
            items.len() == i,
            forall|k: int| 0 <= k < i ==> #[trigger] items@[k]@ == window_json(windows@[k]),
        decreases windows.len() - i,
    {
        items.push(window_object(&windows[i]));
        i += 1;
    }
    assert(views(items@) =~= windows@.map_values(|window: WindowInfo| window_json(window)));
    list_text(items.as_slice())
}

pub fn string_array_json(values: &[String]) -> (text: String)
    ensures
        text@ == json_list(views(values@).map_values(|value: Seq<char>| json_quoted(value))),
{
    let mut items: Vec<String> = Vec::new();
    let mut i: usize = 0;
    while i < values.len()
        invariant
            i <= values.len(),
            items.len() == i,
            forall|k: int| 0 <= k < i ==> #[trigger] items@[k]@ == json_quoted(values@[k]@),
        decreases values.len() - i,
    {
        items.push(json_string(values[i].as_str()));
        i += 1;
    }
    assert(views(items@) =~= views(values@).map_values(|value: Seq<char>| json_quoted(value)));
    list_text(items.as_slice())
}

/// How the file system behaved in a directory.
#[derive(Debug)]
pub enum FileLatency {
    Missing,
    WriteFailed { write_ms: u128, error: String },
    Measured { write_ms: u128, read_ms: u128, read_ok: bool, delete_ms: u128, delete_ok: bool },
}

/// The report on a directory.
pub open spec fn latency_json(path: Seq<char>, latency: FileLatency) -> Seq<char> {
    match latency {
        FileLatency::Missing => "{\"exists\":false,\"path\":"@ + json_quoted(path) + "}"@,
        FileLatency::WriteFailed { write_ms, error } => "{\"exists\":true,\"ok\":false,\"path\":"@
            + json_quoted(path) + ",\"write_ms\":"@ + decimal(write_ms as nat) + ",\"error\":"@
            + json_quoted(error@) + "}"@,
        FileLatency::Measured { write_ms, read_ms, read_ok, delete_ms, delete_ok } =>
            "{\"exists\":true,\"ok\":true,\"path\":"@ + json_quoted(path) + ",\"write_ms\":"@ + decimal(
            write_ms as nat,
        ) + ",\"read_ms\":"@ + decimal(read_ms as nat) + ",\"read_ok\":"@ + bool_text(read_ok)
            + ",\"delete_ms\":"@ + decimal(delete_ms as nat) + ",\"delete_ok\":"@ + bool_text(delete_ok)
            + "}"@,
    }
}

pub fn file_latency_json(path: &str, latency: &FileLatency) -> (text: String)
    ensures
        text@ == latency_json(path@, *latency),
{
    match latency {
        FileLatency::Missing => {
            let mut text = "{\"exists\":false,\"path\":".to_owned();
            text.append(json_string(path).as_str());
            text.append("}");
            text
        },
        FileLatency::WriteFailed { write_ms, error } => {
            let mut text = "{\"exists\":true,\"ok\":false,\"path\":".to_owned();
            text.append(json_string(path).as_str());
            text.append(",\"write_ms\":");
            push_decimal(&mut text, *write_ms);
            text.append(",\"error\":");
            text.append(json_string(error.as_str()).as_str());
            text.append("}");
            text
        },
        FileLatency::Measured { write_ms, read_ms, read_ok, delete_ms, delete_ok } => {
            let mut text = "{\"exists\":true,\"ok\":true,\"path\":".to_owned();
            text.append(json_string(path).as_str());
            text.append(",\"write_ms\":");
            push_decimal(&mut text, *write_ms);
            text.append(",\"read_ms\":");
            push_decimal(&mut text, *read_ms);
            text.append(",\"read_ok\":");
            push_bool(&mut text, *read_ok);
            text.append(",\"delete_ms\":");
            push_decimal(&mut text, *delete_ms);
            text.append(",\"delete_ok\":");
            push_bool(&mut text, *delete_ok);
            text.append("}");
            text
        },
    }
}

/// How a minidump went.
#[derive(Clone, Copy, Debug, PartialEq, Eq, Structural)]
pub enum DumpResult {
    Written,
    OpenProcessFailed(u32),
    CreateFileFailed(u32),
    WriteFailed(u32),
}

/// The report on a minidump.
pub open spec fn dump_json(result: DumpResult) -> Seq<char> {
    match result {
        DumpResult::Written => "{\"ok\":true}"@,
        DumpResult::OpenProcessFailed(code) => "{\"ok\":false,\"error\":\"OpenProcess failed: "@
            + decimal(code as nat) + "\"}"@,
        DumpResult::CreateFileFailed(code) => "{\"ok\":false,\"error\":\"CreateFileW failed: "@
            + decimal(code as nat) + "\"}"@,
        DumpResult::WriteFailed(code) => "{\"ok\":false,\"error\":\"MiniDumpWriteDump failed: "@
            + decimal(code as nat) + "\"}"@,
    }
}

pub fn dump_result_json(result: DumpResult) -> (text: String)
    ensures
        text@ == dump_json(result),
{
    let (head, code) = match result {
        DumpResult::Written => {
            return "{\"ok\":true}".to_owned();
        },
        DumpResult::OpenProcessFailed(code) => ("{\"ok\":false,\"error\":\"OpenProcess failed: ", code),
        DumpResult::CreateFileFailed(code) => ("{\"ok\":false,\"error\":\"CreateFileW failed: ", code),
        DumpResult::WriteFailed(code) => ("{\"ok\":false,\"error\":\"MiniDumpWriteDump failed: ", code),
    };
    let mut text = head.to_owned();
    push_decimal(&mut text, code as u128);
    text.append("\"}");
    text
}

/// The fields of an event, each with its key.
pub open spec fn event_fields(keys: Seq<Seq<char>>, values: Seq<Seq<char>>) -> Seq<char>
    decreases keys.len(),
{
    if keys.len() == 0 {
        seq![]
    } else {
        event_fields(keys.drop_last(), values) + ",\""@ + keys.last() + "\":"@ + values[keys.len() - 1]
    }
}

/// A line of the event log.
pub open spec fn event_json(
    ts_ms: nat,
    seq: nat,
    event: Seq<char>,
    keys: Seq<Seq<char>>,
    values: Seq<Seq<char>>,
) -> Seq<char> {
    "{\"ts_ms\":"@ + decimal(ts_ms) + ",\"seq\":"@ + decimal(seq) + ",\"event\":"@ + json_quoted(event)
        + event_fields(keys, values) + "}\n"@
}

/// The line that parts the output of a command from its errors.
pub open spec fn stderr_heading() -> Seq<u8> {
    seq![10u8, 45u8, 45u8, 45u8, 32u8, 115u8, 116u8, 100u8, 101u8, 114u8, 114u8, 32u8, 45u8, 45u8, 45u8, 10u8]
}

/// What is kept of the output of a command: its output, and its errors under a
/// heading where there are any.
pub fn command_output(stdout: &[u8], stderr: &[u8]) -> (kept: Vec<u8>)
    ensures
        kept@ == if stderr@.len() == 0 {
            stdout@
        } else {
            stdout@ + stderr_heading() + stderr@
        },
{
    let mut kept: Vec<u8> = Vec::new();
    kept.extend_from_slice(stdout);
    if stderr.len() != 0 {
        let heading: Vec<u8> = vec![
            10u8, 45u8, 45u8, 45u8, 32u8, 115u8, 116u8, 100u8, 101u8, 114u8, 114u8, 32u8, 45u8, 45u8, 45u8, 10u8,
        ];
        assert(heading@ =~= stderr_heading());
        kept.extend_from_slice(heading.as_slice());
        kept.extend_from_slice(stderr);
    }
    kept
}

/// A field of an event; the value is JSON.
#[derive(Debug)]
pub struct EventField {
    pub key: String,
    pub value: String,
}

/// The event log's line numbers.
#[derive(Clone, Copy, Debug, PartialEq, Eq, Structural)]
pub struct EventLog {
    pub seq: u64,
}

impl EventLog {
    pub fn new() -> (log: EventLog)
        ensures
            log.seq == 0,
    {
        EventLog { seq: 0 }
    }

    /// The next line of the log.
    pub fn event_fields(&mut self, ts_ms: u128, event: &str, fields: &[EventField]) -> (line: String)
        requires
            old(self).seq < u64::MAX,
        ensures
            final(self).seq == old(self).seq + 1,
            line@ == event_json(
                ts_ms as nat,
                final(self).seq as nat,
                event@,
                fields@.map_values(|field: EventField| field.key@),
                fields@.map_values(|field: EventField| field.value@),
            ),
    {
        self.seq = self.seq + 1;
        let ghost keys = fields@.map_values(|field: EventField| field.key@);
        let ghost values = fields@.map_values(|field: EventField| field.value@);
        let mut line = "{\"ts_ms\":".to_owned();
        push_decimal(&mut line, ts_ms);
        line.append(",\"seq\":");
        push_decimal(&mut line, self.seq as u128);
        line.append(",\"event\":");
        line.append(json_string(event).as_str());
        let ghost head = line@;
        let mut i: usize = 0;
        assert(keys.take(0) =~= seq![]);
        assert(line@ =~= head + event_fields(keys.take(0), values));
        while i < fields.len()
            invariant
                i <= fields.len(),
                keys == fields@.map_values(|field: EventField| field.key@),
                values == fields@.map_values(|field: EventField| field.value@),
                line@ == head + event_fields(keys.take(i as int), values),
            decreases fields.len() - i,
        {
            proof {
                assert(keys.take(i + 1).drop_last() =~= keys.take(i as int));
                assert(keys.take(i + 1).last() == fields@[i as int].key@);
                assert(values[i as int] == fields@[i as int].value@);
            }
            line.append(",\"");
            line.append(fields[i].key.as_str());
            line.append("\":");
            line.append(fields[i].value.as_str());
            assert(line@ =~= head + event_fields(keys.take(i + 1), values));
            i += 1;
        }
        assert(keys.take(i as int) =~= keys);
        line.append("}\n");
        line
    }
}

/// The line of the summary for a process.
pub open spec fn process_line(process: ProcessInfo) -> Seq<char> {
    "  pid="@ + decimal(process.pid as nat) + " ppid="@ + decimal(process.parent_pid as nat) + " threads="@
        + decimal(process.thread_count as nat) + " name="@ + process.name@ + "\n"@
}

/// The line of the summary for a window.
pub open spec fn window_line(window: WindowInfo) -> Seq<char> {
    "  hwnd=0x"@ + upper_hex(window.hwnd as nat) + " pid="@ + decimal(window.pid as nat) + " responsive="@
        + bool_text(window.responsive) + " elapsed_ms="@ + decimal(window.elapsed_ms as nat) + " title="@
        + window.title@ + "\n"@
}

/// The lines of the summary for processes.
pub open spec fn process_lines(processes: Seq<ProcessInfo>) -> Seq<char>
    decreases processes.len(),
{
    if processes.len() == 0 {
        seq![]
    } else {
        process_lines(processes.drop_last()) + process_line(processes.last())
    }
}

/// The lines of the summary for windows.
pub open spec fn window_lines(windows: Seq<WindowInfo>) -> Seq<char>
    decreases windows.len(),
{
    if windows.len() == 0 {
        seq![]
    } else {
        window_lines(windows.drop_last()) + window_line(windows.last())
    }
}

/// The summary of a run.
pub open spec fn summary(out_dir: Seq<char>, processes: Seq<ProcessInfo>, windows: Seq<WindowInfo>) -> Seq<
    char,
> {
    "RustAdmin debug probe\nOutput: "@ + out_dir + "\nProcesses:\n"@ + process_lines(processes)
        + "Windows:\n"@ + window_lines(windows)
}

fn process_text(process: &ProcessInfo) -> (text: String)
    ensures
        text@ == process_line(*process),
{
    let mut text = "  pid=".to_owned();
    push_decimal(&mut text, process.pid as u128);
    text.append(" ppid=");
    push_decimal(&mut text, process.parent_pid as u128);
    text.append(" threads=");
    push_decimal(&mut text, process.thread_count as u128);
    text.append(" name=");
    text.append(process.name.as_str());
    text.append("\n");
    text
}

fn window_text(window: &WindowInfo) -> (text: String)
    ensures
        text@ == window_line(*window),
{
    let mut text = "  hwnd=0x".to_owned();
    push_upper_hex(&mut text, window.hwnd as u64);
    text.append(" pid=");
    push_decimal(&mut text, window.pid as u128);
    text.append(" responsive=");
    push_bool(&mut text, window.responsive);
    text.append(" elapsed_ms=");
    push_decimal(&mut text, window.elapsed_ms);
    text.append(" title=");
    text.append(window.title.as_str());
    text.append("\n");
    text
}

pub fn summary_text(out_dir: &str, processes: &[ProcessInfo], windows: &[WindowInfo]) -> (text: String)
    ensures
        text@ == summary(out_dir@, processes@, windows@),
{
    let mut text = "RustAdmin debug probe\nOutput: ".to_owned();
    text.append(out_dir);
    text.append("\nProcesses:\n");
    let ghost head = text@;
    let mut i: usize = 0;
    assert(processes@.take(0) =~= seq![]);
    assert(text@ =~= head + process_lines(processes@.take(0)));
    while i < processes.len()
        invariant
            i <= processes.len(),
            text@ == head + process_lines(processes@.take(i as int)),
        decreases processes.len() - i,
    {
        assert(processes@.take(i + 1).drop_last() =~= processes@.take(i as int));
        text.append(process_text(&processes[i]).as_str());
        assert(text@ =~= head + process_lines(processes@.take(i + 1)));
        i += 1;
    }
    assert(processes@.take(i as int) =~= processes@);
    text.append("Windows:\n");
    let ghost middle = text@;
    let mut k: usize = 0;
    assert(windows@.take(0) =~= seq![]);
    assert(text@ =~= middle + window_lines(windows@.take(0)));
    while k < windows.len()
        invariant
            k <= windows.len(),
            text@ == middle + window_lines(windows@.take(k as int)),
        decreases windows.len() - k,
    {
        assert(windows@.take(k + 1).drop_last() =~= windows@.take(k as int));
        text.append(window_text(&windows[k]).as_str());
        assert(text@ =~= middle + window_lines(windows@.take(k + 1)));
        k += 1;
    }
    assert(windows@.take(k as int) =~= windows@);
    text
}

} // verus!
