//! What the options of the desktop-duplication and debug probes mean.
use vstd::prelude::*;
use vstd::string::*;

use crate::debugprobe::{debug_defaults, debug_options, next_number, DebugOptions};
use crate::dxgi::{dxgi_defaults, dxgi_option, dxgi_options, DxgiOptions};
use crate::netprobe::config_laws::asks_for;
use crate::parse::law_decimal_reads_back;
use crate::text::decimal;

verus! {

// ---------------------------------------------------------------------------
// The desktop-duplication probe
// ---------------------------------------------------------------------------

proof fn lemma_dxgi_prefix(
    state: DxgiOptions<Seq<char>>,
    args: Seq<Seq<char>>,
    more: Seq<Seq<char>>,
    at: int,
)
    requires
        0 <= at <= args.len(),
        dxgi_options(state, args, at) is Ok,
    ensures
        dxgi_options(state, args + more, at) == dxgi_options(
            dxgi_options(state, args, at)->Ok_0,
            args + more,
            args.len() as int,
        ),
    decreases args.len() - at,
{
    let all = args + more;
    if at < args.len() {
        assert(all[at] == args[at]);
        if at + 1 < args.len() {
            assert(all[at + 1] == args[at + 1]);
        }
        assert(dxgi_option(state, all, at) == dxgi_option(state, args, at));
        let (next, rest) = dxgi_option(state, args, at)->Ok_0;
        assert(at < rest <= args.len());
        lemma_dxgi_prefix(next, args, more, rest);
    }
}

proof fn lemma_dxgi_added(
    args: Seq<Seq<char>>,
    before: DxgiOptions<Seq<char>>,
    option: Seq<char>,
    value: Seq<char>,
    next: DxgiOptions<Seq<char>>,
)
    requires
        asks_for(dxgi_options(dxgi_defaults(), args, 0), before),
        asks_for(dxgi_option(before, seq![option, value], 0), (next, 2)),
    ensures
        asks_for(dxgi_options(dxgi_defaults(), args + seq![option, value], 0), next),
{
    let more = seq![option, value];
    let all = args + more;
    let end = args.len() as int;
    lemma_dxgi_prefix(dxgi_defaults(), args, more, 0);
    assert(all[end] == option && more[0] == option);
    assert(all[end + 1] == value && more[1] == value);
    assert(asks_for(dxgi_option(before, all, end), (next, end + 2)));
    assert(asks_for(dxgi_options(next, all, end + 2), next));
}

proof fn lemma_dxgi_flagged(
    args: Seq<Seq<char>>,
    before: DxgiOptions<Seq<char>>,
    option: Seq<char>,
    next: DxgiOptions<Seq<char>>,
)
    requires
        asks_for(dxgi_options(dxgi_defaults(), args, 0), before),
        asks_for(dxgi_option(before, seq![option], 0), (next, 1)),
    ensures
        asks_for(dxgi_options(dxgi_defaults(), args + seq![option], 0), next),
{
    let more = seq![option];
    let all = args + more;
    let end = args.len() as int;
    lemma_dxgi_prefix(dxgi_defaults(), args, more, 0);
    assert(all[end] == option && more[0] == option);
    assert(asks_for(dxgi_option(before, all, end), (next, end + 1)));
    assert(asks_for(dxgi_options(next, all, end + 1), next));
}

/// On the command line of the desktop-duplication probe, an option with a value at
/// the end sets what it names and leaves everything else as the line before it has
/// it.
#[verifier::rlimit(60)]
pub proof fn law_dxgi_values_are_added(
    args: Seq<Seq<char>>,
    before: DxgiOptions<Seq<char>>,
    text: Seq<char>,
    number: u64,
    count: u32,
    size: usize,
)
    requires
        asks_for(dxgi_options(dxgi_defaults(), args, 0), before),
    ensures
        asks_for(
            dxgi_options(dxgi_defaults(), args + seq!["--display"@, decimal(size as nat)], 0),
            DxgiOptions { display: size, ..before },
        ),
        asks_for(
            dxgi_options(dxgi_defaults(), args + seq!["--duration"@, decimal(number as nat)], 0),
            DxgiOptions { duration_sec: number, ..before },
        ),
        asks_for(
            dxgi_options(dxgi_defaults(), args + seq!["--timeout-ms"@, decimal(count as nat)], 0),
            DxgiOptions { timeout_ms: count, ..before },
        ),
        asks_for(
            dxgi_options(dxgi_defaults(), args + seq!["--jsonl"@, text], 0),
            DxgiOptions { jsonl: text, ..before },
        ),
        asks_for(
            dxgi_options(dxgi_defaults(), args + seq!["--save-first"@, text], 0),
            DxgiOptions { save_first: Some(text), ..before },
        ),
{
    reveal_strlit("--display");
    reveal_strlit("--duration");
    reveal_strlit("--timeout-ms");
    reveal_strlit("--jsonl");
    reveal_strlit("--save-first");
    reveal_strlit("--map-pointer-only");
    reveal_strlit("--list-displays");
    reveal_strlit("--help");
    reveal_strlit("-h");
    reveal_strlit("--wake");
    reveal_strlit("--mode");
    assert("--timeout-ms"@[2] == 't');
    assert("--save-first"@[2] == 's');
    assert("--help"@[2] == 'h');
    assert("--wake"@[2] == 'w');
    assert("--mode"@[2] == 'm');
    law_decimal_reads_back(number as nat, u64::MAX as nat);
    law_decimal_reads_back(count as nat, u32::MAX as nat);
    law_decimal_reads_back(size as nat, usize::MAX as nat);
    lemma_dxgi_added(
        args,
        before,
        "--display"@,
        decimal(size as nat),
        DxgiOptions { display: size, ..before },
    );
    lemma_dxgi_added(
        args,
        before,
        "--duration"@,
        decimal(number as nat),
        DxgiOptions { duration_sec: number, ..before },
    );
    lemma_dxgi_added(
        args,
        before,
        "--timeout-ms"@,
        decimal(count as nat),
        DxgiOptions { timeout_ms: count, ..before },
    );
    lemma_dxgi_added(
        args,
        before,
        "--jsonl"@,
        text,
        DxgiOptions { jsonl: text, ..before },
    );
    lemma_dxgi_added(
        args,
        before,
        "--save-first"@,
        text,
        DxgiOptions { save_first: Some(text), ..before },
    );
}

/// On the command line of the desktop-duplication probe, a switch at the end sets
/// what it names and leaves everything else as the line before it has it.
#[verifier::rlimit(60)]
pub proof fn law_dxgi_switches_are_added(
    args: Seq<Seq<char>>,
    before: DxgiOptions<Seq<char>>,
)
    requires
        asks_for(dxgi_options(dxgi_defaults(), args, 0), before),
    ensures
        asks_for(
            dxgi_options(dxgi_defaults(), args + seq!["--map-pointer-only"@], 0),
            DxgiOptions { map_pointer_only: true, ..before },
        ),
        asks_for(
            dxgi_options(dxgi_defaults(), args + seq!["--list-displays"@], 0),
            DxgiOptions { list_displays: true, ..before },
        ),
        asks_for(
            dxgi_options(dxgi_defaults(), args + seq!["--help"@], 0),
            DxgiOptions { help: true, ..before },
        ),
        asks_for(
            dxgi_options(dxgi_defaults(), args + seq!["-h"@], 0),
            DxgiOptions { help: true, ..before },
        ),
{
    reveal_strlit("--display");
    reveal_strlit("--duration");
    reveal_strlit("--timeout-ms");
    reveal_strlit("--jsonl");
    reveal_strlit("--save-first");
    reveal_strlit("--map-pointer-only");
    reveal_strlit("--list-displays");
    reveal_strlit("--help");
    reveal_strlit("-h");
    reveal_strlit("--wake");
    reveal_strlit("--mode");
    assert("--timeout-ms"@[2] == 't');
    assert("--save-first"@[2] == 's');
    assert("--help"@[2] == 'h');
    assert("--wake"@[2] == 'w');
    assert("--mode"@[2] == 'm');
    lemma_dxgi_flagged(
        args,
        before,
        "--map-pointer-only"@,
        DxgiOptions { map_pointer_only: true, ..before },
    );
    lemma_dxgi_flagged(
        args,
        before,
        "--list-displays"@,
        DxgiOptions { list_displays: true, ..before },
    );
    lemma_dxgi_flagged(args, before, "--help"@, DxgiOptions { help: true, ..before });
    lemma_dxgi_flagged(args, before, "-h"@, DxgiOptions { help: true, ..before });
}

// ---------------------------------------------------------------------------
// The debug probe
// ---------------------------------------------------------------------------

proof fn lemma_debug_prefix(
    state: DebugOptions<Seq<char>>,
    args: Seq<Seq<char>>,
    more: Seq<Seq<char>>,
    at: int,
)
    requires
        0 <= at <= args.len(),
        debug_options(state, args, at) is Ok,
    ensures
        debug_options(state, args + more, at) == debug_options(
            debug_options(state, args, at)->Ok_0,
            args + more,
            args.len() as int,
        ),
    decreases args.len() - at,
{
    let all = args + more;
    if at < args.len() {
        assert(all[at] == args[at]);
        if at + 1 < args.len() {
            assert(all[at + 1] == args[at + 1]);
        }
        if args[at] == "--out"@ {
            lemma_debug_prefix(DebugOptions { out_dir: Some(args[at + 1]), ..state }, args, more, at + 2);
        } else if args[at] == "--duration"@ {
            let value = next_number(args, at, u64::MAX as nat)->Ok_0;
            lemma_debug_prefix(DebugOptions { duration_sec: value as u64, ..state }, args, more, at + 2);
        } else if args[at] == "--interval-ms"@ {
            let value = next_number(args, at, u64::MAX as nat)->Ok_0;
            lemma_debug_prefix(DebugOptions { interval_ms: value as u64, ..state }, args, more, at + 2);
        } else if args[at] == "--dump"@ {
            lemma_debug_prefix(DebugOptions { dump: true, ..state }, args, more, at + 1);
        } else {
            lemma_debug_prefix(DebugOptions { help: true, ..state }, args, more, at + 1);
        }
    }
}

/// On the command line of the debug probe, an option at the end sets what it
/// names and leaves everything else as the line before it has it.
#[verifier::rlimit(60)]
pub proof fn law_debug_options_are_added(
    args: Seq<Seq<char>>,
    before: DebugOptions<Seq<char>>,
    text: Seq<char>,
    number: u64,
)
    requires
        asks_for(debug_options(debug_defaults(), args, 0), before),
    ensures
        asks_for(
            debug_options(debug_defaults(), args + seq!["--out"@, text], 0),
            DebugOptions { out_dir: Some(text), ..before },
        ),
        asks_for(
            debug_options(debug_defaults(), args + seq!["--duration"@, decimal(number as nat)], 0),
            DebugOptions { duration_sec: number, ..before },
        ),
        asks_for(
            debug_options(debug_defaults(), args + seq!["--interval-ms"@, decimal(number as nat)], 0),
            DebugOptions { interval_ms: number, ..before },
        ),
        asks_for(
            debug_options(debug_defaults(), args + seq!["--dump"@], 0),
            DebugOptions { dump: true, ..before },
        ),
        asks_for(
            debug_options(debug_defaults(), args + seq!["--help"@], 0),
            DebugOptions { help: true, ..before },
        ),
{
    reveal_strlit("--out");
    reveal_strlit("--duration");
    reveal_strlit("--interval-ms");
    reveal_strlit("--dump");
    reveal_strlit("--help");
    assert("--dump"@[2] == 'd');
    assert("--help"@[2] == 'h');
    law_decimal_reads_back(number as nat, u64::MAX as nat);
    let digits = decimal(number as nat);
    let end = args.len() as int;
    let out = seq!["--out"@, text];
    lemma_debug_prefix(debug_defaults(), args, out, 0);
    assert((args + out)[end] == "--out"@ && (args + out)[end + 1] == text);
    let duration = seq!["--duration"@, digits];
    lemma_debug_prefix(debug_defaults(), args, duration, 0);
    assert((args + duration)[end] == "--duration"@ && (args + duration)[end + 1] == digits);
    let interval = seq!["--interval-ms"@, digits];
    lemma_debug_prefix(debug_defaults(), args, interval, 0);
    assert((args + interval)[end] == "--interval-ms"@ && (args + interval)[end + 1] == digits);
    let dump = seq!["--dump"@];
    lemma_debug_prefix(debug_defaults(), args, dump, 0);
    assert((args + dump)[end] == "--dump"@);
    let help = seq!["--help"@];
    lemma_debug_prefix(debug_defaults(), args, help, 0);
    assert((args + help)[end] == "--help"@);
    reveal_with_fuel(debug_options, 2);
}

} // verus!
