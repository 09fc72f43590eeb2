//! What the options of the screen benchmark mean.
use vstd::prelude::*;
use vstd::string::*;

use crate::netprobe::config_laws::asks_for;
use crate::parse::{first_place, law_decimal_reads_back, split_on};
use crate::screen::active_map::Variant;
use crate::screen::options::{
    analyze_defaults, analyze_option, analyze_options, bench_line, colors_named, export_defaults,
    export_option, export_options, filled, hardware_defaults, hardware_line, hardware_option,
    hardware_options, hardware_usable, is_positive, option_at, profiles_named, record_defaults,
    record_line, record_option, record_options, record_usable, run_defaults, run_line, run_option,
    run_options, run_usable, string_list, variants_named, AnalyzeModel, BenchModel, ExportModel,
    HardwareModel, HwEncoderProfile, RecordModel, RunModel,
};
use crate::screen::quantize::ColorMode;
use crate::screen::render::{law_scene_label_parses, SyntheticScene};
use crate::text::decimal;
use crate::text_laws::{law_first_place, law_parts_make_up_the_text};

verus! {

// ---------------------------------------------------------------------------
// Options and values
// ---------------------------------------------------------------------------

/// Whether an option's name holds no sign of equality.
pub open spec fn is_plain(key: Seq<char>) -> bool {
    forall|i: int| 0 <= i < key.len() ==> #[trigger] key[i] != '='
}

/// An option and its value are two arguments, or one with a sign of equality
/// between them; the first such sign parts them.
#[verifier::rlimit(60)]
pub proof fn law_option_forms(args: Seq<Seq<char>>, key: Seq<char>, value: Seq<char>)
    requires
        is_plain(key),
    ensures
        option_at(args + seq![key, value], args.len() as int) == Ok::<
            (Seq<char>, Seq<char>, bool),
            Seq<char>,
        >((key, value, true)),
        value.len() > 0 ==> option_at(args + seq![key + seq!['='] + value], args.len() as int) == Ok::<
            (Seq<char>, Seq<char>, bool),
            Seq<char>,
        >((key, value, false)),
        option_at(args + seq![key], args.len() as int) is Err,
        option_at(args + seq![key + seq!['=']], args.len() as int) is Err,
{
    let end = args.len() as int;
    let two = args + seq![key, value];
    assert(two[end] == key && two[end + 1] == value);
    law_first_place(key, '=');
    let joint = key + seq!['='] + value;
    law_first_place(joint, '=');
    assert(joint[key.len() as int] == '=');
    if first_place(joint, '=') < key.len() {
        assert(joint[first_place(joint, '=')] == key[first_place(joint, '=')]);
    }
    assert(first_place(joint, '=') == key.len());
    assert(joint.take(key.len() as int) =~= key);
    assert(joint.skip(key.len() as int + 1) =~= value);
    let one = args + seq![joint];
    assert(one[end] == joint);
    let bare = args + seq![key];
    assert(bare[end] == key);
    let empty = key + seq!['='];
    law_first_place(empty, '=');
    assert(empty[key.len() as int] == '=');
    if first_place(empty, '=') < key.len() {
        assert(empty[first_place(empty, '=')] == key[first_place(empty, '=')]);
    }
    assert(empty.skip(key.len() as int + 1).len() == 0);
    assert((args + seq![empty])[end] == empty);
}

proof fn lemma_option_in_prefix(args: Seq<Seq<char>>, more: Seq<Seq<char>>, at: int)
    requires
        0 <= at < args.len(),
        option_at(args, at) is Ok,
    ensures
        option_at(args + more, at) == option_at(args, at),
        option_at(args, at)->Ok_0.2 ==> at + 2 <= args.len(),
{
    let all = args + more;
    assert(all[at] == args[at]);
    if at + 1 < args.len() {
        assert(all[at + 1] == args[at + 1]);
    }
}

// ---------------------------------------------------------------------------
// Software runs
// ---------------------------------------------------------------------------

proof fn lemma_run_prefix(state: RunModel, args: Seq<Seq<char>>, more: Seq<Seq<char>>, at: int)
    requires
        0 <= at <= args.len(),
        run_options(state, args, at) is Ok,
    ensures
        run_options(state, args + more, at) == run_options(
            run_options(state, args, at)->Ok_0,
            args + more,
            args.len() as int,
        ),
    decreases args.len() - at,
{
    if at < args.len() {
        assert((args + more)[at] == args[at]);
        if args[at] == "--i444"@ {
            lemma_run_prefix(RunModel { i444: true, ..state }, args, more, at + 1);
        } else if args[at] == "--save-samples"@ {
            lemma_run_prefix(RunModel { save_samples: true, ..state }, args, more, at + 1);
        } else {
            lemma_option_in_prefix(args, more, at);
            let (key, value, next) = option_at(args, at)->Ok_0;
            lemma_run_prefix(
                run_option(state, key, value)->Ok_0,
                args,
                more,
                at + if next { 2int } else { 1int },
            );
        }
    }
}

/// An option at the end of the arguments takes effect on what those before it
/// gave, in either of its forms.
pub proof fn law_run_option_is_added(
    output_dir: Seq<char>,
    args: Seq<Seq<char>>,
    before: RunModel,
    key: Seq<char>,
    value: Seq<char>,
)
    requires
        asks_for(run_options(run_defaults(output_dir), args, 0), before),
        is_plain(key),
        key != "--i444"@,
        key != "--save-samples"@,
        key != "-h"@,
        key != "--help"@,
        key + seq!['='] + value != "--i444"@,
        key + seq!['='] + value != "--save-samples"@,
        key + seq!['='] + value != "-h"@,
        key + seq!['='] + value != "--help"@,
    ensures
        run_options(run_defaults(output_dir), args + seq![key, value], 0) == run_option(before, key, value),
        value.len() > 0 ==> run_options(run_defaults(output_dir), args + seq![key + seq!['='] + value], 0)
            == run_option(before, key, value),
{
    reveal_with_fuel(run_options, 2);
    let end = args.len() as int;
    law_option_forms(args, key, value);
    let two = seq![key, value];
    lemma_run_prefix(run_defaults(output_dir), args, two, 0);
    assert((args + two)[end] == key);
    let one = seq![key + seq!['='] + value];
    lemma_run_prefix(run_defaults(output_dir), args, one, 0);
    assert((args + one)[end] == key + seq!['='] + value);
}

/// A switch at the end of the arguments is added to what those before it gave.
pub proof fn law_run_switch_is_added(output_dir: Seq<char>, args: Seq<Seq<char>>, before: RunModel)
    requires
        asks_for(run_options(run_defaults(output_dir), args, 0), before),
    ensures
        asks_for(
            run_options(run_defaults(output_dir), args + seq!["--i444"@], 0),
            RunModel { i444: true, ..before },
        ),
        asks_for(
            run_options(run_defaults(output_dir), args + seq!["--save-samples"@], 0),
            RunModel { save_samples: true, ..before },
        ),
{
    reveal_with_fuel(run_options, 2);
    reveal_strlit("--i444");
    reveal_strlit("--save-samples");
    let end = args.len() as int;
    lemma_run_prefix(run_defaults(output_dir), args, seq!["--i444"@], 0);
    assert((args + seq!["--i444"@])[end] == "--i444"@);
    lemma_run_prefix(run_defaults(output_dir), args, seq!["--save-samples"@], 0);
    assert((args + seq!["--save-samples"@])[end] == "--save-samples"@);
}

/// An option sets what it names, to the number or the text given, and nothing
/// else.
#[verifier::rlimit(60)]
pub proof fn law_run_option_sets_its_field(
    state: RunModel,
    text: Seq<char>,
    size: usize,
    count: u32,
    scene: SyntheticScene,
)
    ensures
        asks_for(run_option(state, "--input"@, text), RunModel { input: Some(text), ..state }),
        asks_for(run_option(state, "--output-dir"@, text), RunModel { output_dir: text, ..state }),
        asks_for(run_option(state, "--width"@, decimal(size as nat)), RunModel { width: size, ..state }),
        asks_for(run_option(state, "--height"@, decimal(size as nat)), RunModel { height: size, ..state }),
        asks_for(run_option(state, "--frames"@, decimal(size as nat)), RunModel { frames: size, ..state }),
        asks_for(run_option(state, "--fps"@, decimal(count as nat)), RunModel { fps: count, ..state }),
        asks_for(run_option(state, "--scene"@, scene.name()), RunModel { scene: scene, ..state }),
        asks_for(run_option(state, "--repeat"@, decimal(size as nat)), RunModel { repeat: size, ..state }),
{
    reveal_strlit("--input");
    reveal_strlit("--output-dir");
    reveal_strlit("--width");
    reveal_strlit("--height");
    reveal_strlit("--frames");
    reveal_strlit("--fps");
    reveal_strlit("--scene");
    reveal_strlit("--repeat");
    reveal_strlit("--quality");
    reveal_strlit("--colors");
    reveal_strlit("--variants");
    assert("--input"@.len() == 7);
    assert("--output-dir"@.len() == 12);
    assert("--width"@.len() == 7);
    assert("--height"@.len() == 8);
    assert("--frames"@.len() == 8);
    assert("--fps"@.len() == 5);
    assert("--scene"@.len() == 7);
    assert("--repeat"@.len() == 8);
    assert("--quality"@.len() == 9);
    assert("--colors"@.len() == 8);
    assert("--variants"@.len() == 10);
    assert("--input"@[2] == 'i');
    assert("--width"@[2] == 'w');
    assert("--height"@[2] == 'h');
    assert("--frames"@[2] == 'f');
    assert("--scene"@[2] == 's');
    assert("--repeat"@[2] == 'r');
    assert("--colors"@[2] == 'c');
    law_decimal_reads_back(size as nat, usize::MAX as nat);
    law_decimal_reads_back(count as nat, u32::MAX as nat);
    law_scene_label_parses(scene);
}

// ---------------------------------------------------------------------------
// Hardware runs
// ---------------------------------------------------------------------------

proof fn lemma_hardware_prefix(state: HardwareModel, args: Seq<Seq<char>>, more: Seq<Seq<char>>, at: int)
    requires
        0 <= at <= args.len(),
        hardware_options(state, args, at) is Ok,
    ensures
        hardware_options(state, args + more, at) == hardware_options(
            hardware_options(state, args, at)->Ok_0,
            args + more,
            args.len() as int,
        ),
    decreases args.len() - at,
{
    if at < args.len() {
        assert((args + more)[at] == args[at]);
        if args[at] == "--save-samples"@ {
            lemma_hardware_prefix(HardwareModel { save_samples: true, ..state }, args, more, at + 1);
        } else {
            lemma_option_in_prefix(args, more, at);
            let (key, value, next) = option_at(args, at)->Ok_0;
            lemma_hardware_prefix(
                hardware_option(state, key, value)->Ok_0,
                args,
                more,
                at + if next { 2int } else { 1int },
            );
        }
    }
}

/// An option at the end of the arguments takes effect on what those before it
/// gave, in either of its forms.
pub proof fn law_hardware_option_is_added(
    output_dir: Seq<char>,
    args: Seq<Seq<char>>,
    before: HardwareModel,
    key: Seq<char>,
    value: Seq<char>,
)
    requires
        asks_for(hardware_options(hardware_defaults(output_dir), args, 0), before),
        is_plain(key),
        key != "--save-samples"@,
        key + seq!['='] + value != "--save-samples"@,
    ensures
        hardware_options(hardware_defaults(output_dir), args + seq![key, value], 0) == hardware_option(before, key, value),
        value.len() > 0 ==> hardware_options(hardware_defaults(output_dir), args + seq![key + seq!['='] + value], 0)
            == hardware_option(before, key, value),
{
    reveal_with_fuel(hardware_options, 2);
    let end = args.len() as int;
    law_option_forms(args, key, value);
    let two = seq![key, value];
    lemma_hardware_prefix(hardware_defaults(output_dir), args, two, 0);
    assert((args + two)[end] == key);
    let one = seq![key + seq!['='] + value];
    lemma_hardware_prefix(hardware_defaults(output_dir), args, one, 0);
    assert((args + one)[end] == key + seq!['='] + value);
}

/// A switch at the end of the arguments is added to what those before it gave.
pub proof fn law_hardware_switch_is_added(output_dir: Seq<char>, args: Seq<Seq<char>>, before: HardwareModel)
    requires
        asks_for(hardware_options(hardware_defaults(output_dir), args, 0), before),
    ensures
        asks_for(
            hardware_options(hardware_defaults(output_dir), args + seq!["--save-samples"@], 0),
            HardwareModel { save_samples: true, ..before },
        ),
{
    reveal_with_fuel(hardware_options, 2);
    reveal_strlit("--save-samples");
    let end = args.len() as int;
    lemma_hardware_prefix(hardware_defaults(output_dir), args, seq!["--save-samples"@], 0);
    assert((args + seq!["--save-samples"@])[end] == "--save-samples"@);
}

/// An option sets what it names, to the number or the text given, and nothing
/// else.
#[verifier::rlimit(60)]
pub proof fn law_hardware_option_sets_its_field(
    state: HardwareModel,
    text: Seq<char>,
    size: usize,
    count: u32,
    scene: SyntheticScene,
)
    ensures
        asks_for(hardware_option(state, "--input"@, text), HardwareModel { input: Some(text), ..state }),
        asks_for(hardware_option(state, "--output-dir"@, text), HardwareModel { output_dir: text, ..state }),
        asks_for(hardware_option(state, "--width"@, decimal(size as nat)), HardwareModel { width: size, ..state }),
        asks_for(hardware_option(state, "--height"@, decimal(size as nat)), HardwareModel { height: size, ..state }),
        asks_for(hardware_option(state, "--frames"@, decimal(size as nat)), HardwareModel { frames: size, ..state }),
        asks_for(hardware_option(state, "--fps"@, decimal(count as nat)), HardwareModel { fps: count, ..state }),
        asks_for(hardware_option(state, "--scene"@, scene.name()), HardwareModel { scene: scene, ..state }),
        asks_for(hardware_option(state, "--repeat"@, decimal(size as nat)), HardwareModel { repeat: size, ..state }),
{
    reveal_strlit("--input");
    reveal_strlit("--output-dir");
    reveal_strlit("--width");
    reveal_strlit("--height");
    reveal_strlit("--frames");
    reveal_strlit("--fps");
    reveal_strlit("--scene");
    reveal_strlit("--repeat");
    reveal_strlit("--qualities");
    reveal_strlit("--encoders");
    reveal_strlit("--profiles");
    assert("--input"@.len() == 7);
    assert("--output-dir"@.len() == 12);
    assert("--width"@.len() == 7);
    assert("--height"@.len() == 8);
    assert("--frames"@.len() == 8);
    assert("--fps"@.len() == 5);
    assert("--scene"@.len() == 7);
    assert("--repeat"@.len() == 8);
    assert("--qualities"@.len() == 11);
    assert("--encoders"@.len() == 10);
    assert("--profiles"@.len() == 10);
    assert("--input"@[2] == 'i');
    assert("--width"@[2] == 'w');
    assert("--height"@[2] == 'h');
    assert("--frames"@[2] == 'f');
    assert("--scene"@[2] == 's');
    assert("--repeat"@[2] == 'r');
    assert("--encoders"@[2] == 'e');
    assert("--profiles"@[2] == 'p');
    law_decimal_reads_back(size as nat, usize::MAX as nat);
    law_decimal_reads_back(count as nat, u32::MAX as nat);
    law_scene_label_parses(scene);
}

// ---------------------------------------------------------------------------
// Recordings
// ---------------------------------------------------------------------------

proof fn lemma_record_prefix(state: RecordModel, args: Seq<Seq<char>>, more: Seq<Seq<char>>, at: int)
    requires
        0 <= at <= args.len(),
        record_options(state, args, at) is Ok,
    ensures
        record_options(state, args + more, at) == record_options(
            record_options(state, args, at)->Ok_0,
            args + more,
            args.len() as int,
        ),
    decreases args.len() - at,
{
    if at < args.len() {
        assert((args + more)[at] == args[at]);
        lemma_option_in_prefix(args, more, at);
        let (key, value, next) = option_at(args, at)->Ok_0;
        lemma_record_prefix(
            record_option(state, key, value)->Ok_0,
            args,
            more,
            at + if next { 2int } else { 1int },
        );
    }
}

/// An option at the end of the arguments takes effect on what those before it
/// gave, in either of its forms.
pub proof fn law_record_option_is_added(
    args: Seq<Seq<char>>,
    before: RecordModel,
    key: Seq<char>,
    value: Seq<char>,
)
    requires
        asks_for(record_options(record_defaults(), args, 0), before),
        is_plain(key),
    ensures
        record_options(record_defaults(), args + seq![key, value], 0) == record_option(before, key, value),
        value.len() > 0 ==> record_options(record_defaults(), args + seq![key + seq!['='] + value], 0)
            == record_option(before, key, value),
{
    reveal_with_fuel(record_options, 2);
    let end = args.len() as int;
    law_option_forms(args, key, value);
    let two = seq![key, value];
    lemma_record_prefix(record_defaults(), args, two, 0);
    assert((args + two)[end] == key);
    let one = seq![key + seq!['='] + value];
    lemma_record_prefix(record_defaults(), args, one, 0);
    assert((args + one)[end] == key + seq!['='] + value);
}

/// An option sets what it names, to the number or the text given, and nothing
/// else.
#[verifier::rlimit(60)]
pub proof fn law_record_option_sets_its_field(
    state: RecordModel,
    text: Seq<char>,
    size: usize,
    count: u32,
    number: u64,
)
    ensures
        asks_for(record_option(state, "--output"@, text), RecordModel { output: text, ..state }),
        asks_for(record_option(state, "--frames"@, decimal(size as nat)), RecordModel { frames: size, ..state }),
        asks_for(record_option(state, "--fps"@, decimal(count as nat)), RecordModel { fps: count, ..state }),
        asks_for(record_option(state, "--idle-timeout-ms"@, decimal(number as nat)), RecordModel { idle_timeout_ms: number, ..state }),
        asks_for(record_option(state, "--display"@, decimal(size as nat)), RecordModel { display: Some(size), ..state }),
        asks_for(record_option(state, "--start-delay-ms"@, decimal(number as nat)), RecordModel { start_delay_ms: number, ..state }),
{
    reveal_strlit("--output");
    reveal_strlit("--frames");
    reveal_strlit("--fps");
    reveal_strlit("--idle-timeout-ms");
    reveal_strlit("--display");
    reveal_strlit("--capture");
    reveal_strlit("--start-delay-ms");
    assert("--output"@.len() == 8);
    assert("--frames"@.len() == 8);
    assert("--fps"@.len() == 5);
    assert("--idle-timeout-ms"@.len() == 17);
    assert("--display"@.len() == 9);
    assert("--capture"@.len() == 9);
    assert("--start-delay-ms"@.len() == 16);
    assert("--output"@[2] == 'o');
    assert("--frames"@[2] == 'f');
    assert("--display"@[2] == 'd');
    assert("--capture"@[2] == 'c');
    law_decimal_reads_back(size as nat, usize::MAX as nat);
    law_decimal_reads_back(count as nat, u32::MAX as nat);
    law_decimal_reads_back(number as nat, u64::MAX as nat);
}

// ---------------------------------------------------------------------------
// Exports
// ---------------------------------------------------------------------------

proof fn lemma_export_prefix(state: ExportModel, args: Seq<Seq<char>>, more: Seq<Seq<char>>, at: int)
    requires
        0 <= at <= args.len(),
        export_options(state, args, at) is Ok,
    ensures
        export_options(state, args + more, at) == export_options(
            export_options(state, args, at)->Ok_0,
            args + more,
            args.len() as int,
        ),
    decreases args.len() - at,
{
    if at < args.len() {
        assert((args + more)[at] == args[at]);
        lemma_option_in_prefix(args, more, at);
        let (key, value, next) = option_at(args, at)->Ok_0;
        lemma_export_prefix(
            export_option(state, key, value)->Ok_0,
            args,
            more,
            at + if next { 2int } else { 1int },
        );
    }
}

/// An option at the end of the arguments takes effect on what those before it
/// gave, in either of its forms.
pub proof fn law_export_option_is_added(
    args: Seq<Seq<char>>,
    before: ExportModel,
    key: Seq<char>,
    value: Seq<char>,
)
    requires
        asks_for(export_options(export_defaults(), args, 0), before),
        is_plain(key),
    ensures
        export_options(export_defaults(), args + seq![key, value], 0) == export_option(before, key, value),
        value.len() > 0 ==> export_options(export_defaults(), args + seq![key + seq!['='] + value], 0)
            == export_option(before, key, value),
{
    reveal_with_fuel(export_options, 2);
    let end = args.len() as int;
    law_option_forms(args, key, value);
    let two = seq![key, value];
    lemma_export_prefix(export_defaults(), args, two, 0);
    assert((args + two)[end] == key);
    let one = seq![key + seq!['='] + value];
    lemma_export_prefix(export_defaults(), args, one, 0);
    assert((args + one)[end] == key + seq!['='] + value);
}

/// An option sets what it names, to the number or the text given, and nothing
/// else.
pub proof fn law_export_option_sets_its_field(
    state: ExportModel,
    text: Seq<char>,
)
    ensures
        asks_for(export_option(state, "--input"@, text), ExportModel { input: Some(text), ..state }),
        asks_for(export_option(state, "--output"@, text), ExportModel { output: Some(text), ..state }),
{
    reveal_strlit("--input");
    reveal_strlit("--output");
    assert("--input"@.len() == 7);
    assert("--output"@.len() == 8);
}

// ---------------------------------------------------------------------------
// Analyses
// ---------------------------------------------------------------------------

proof fn lemma_analyze_prefix(state: AnalyzeModel, args: Seq<Seq<char>>, more: Seq<Seq<char>>, at: int)
    requires
        0 <= at <= args.len(),
        analyze_options(state, args, at) is Ok,
    ensures
        analyze_options(state, args + more, at) == analyze_options(
            analyze_options(state, args, at)->Ok_0,
            args + more,
            args.len() as int,
        ),
    decreases args.len() - at,
{
    if at < args.len() {
        assert((args + more)[at] == args[at]);
        lemma_option_in_prefix(args, more, at);
        let (key, value, next) = option_at(args, at)->Ok_0;
        lemma_analyze_prefix(
            analyze_option(state, key, value)->Ok_0,
            args,
            more,
            at + if next { 2int } else { 1int },
        );
    }
}

/// An option at the end of the arguments takes effect on what those before it
/// gave, in either of its forms.
pub proof fn law_analyze_option_is_added(
    args: Seq<Seq<char>>,
    before: AnalyzeModel,
    key: Seq<char>,
    value: Seq<char>,
)
    requires
        asks_for(analyze_options(analyze_defaults(), args, 0), before),
        is_plain(key),
    ensures
        analyze_options(analyze_defaults(), args + seq![key, value], 0) == analyze_option(before, key, value),
        value.len() > 0 ==> analyze_options(analyze_defaults(), args + seq![key + seq!['='] + value], 0)
            == analyze_option(before, key, value),
{
    reveal_with_fuel(analyze_options, 2);
    let end = args.len() as int;
    law_option_forms(args, key, value);
    let two = seq![key, value];
    lemma_analyze_prefix(analyze_defaults(), args, two, 0);
    assert((args + two)[end] == key);
    let one = seq![key + seq!['='] + value];
    lemma_analyze_prefix(analyze_defaults(), args, one, 0);
    assert((args + one)[end] == key + seq!['='] + value);
}

/// An option sets what it names, to the number or the text given, and nothing
/// else.
pub proof fn law_analyze_option_sets_its_field(
    state: AnalyzeModel,
    text: Seq<char>,
)
    ensures
        asks_for(analyze_option(state, "--input"@, text), AnalyzeModel { input: Some(text), ..state }),
        asks_for(analyze_option(state, "--decoded"@, text), AnalyzeModel { decoded: Some(text), ..state }),
        asks_for(analyze_option(state, "--output"@, text), AnalyzeModel { output: Some(text), ..state }),
{
    reveal_strlit("--input");
    reveal_strlit("--decoded");
    reveal_strlit("--output");
    assert("--input"@.len() == 7);
    assert("--decoded"@.len() == 9);
    assert("--output"@.len() == 8);
}

// ---------------------------------------------------------------------------
// Lists
// ---------------------------------------------------------------------------

/// A list of color modes names each once, in the order of first mention: the
/// list is understood exactly if every word is a name, and it has an item exactly
/// if a word names it.
pub proof fn law_colors_named(words: Seq<Seq<char>>)
    ensures
        colors_named(words) is Ok <==> forall|i: int| 0 <= i < words.len() ==> ColorMode::named(#[trigger] words[i]) is Some,
        colors_named(words) matches Ok(found) ==> {
            &&& found.no_duplicates()
            &&& forall|item: ColorMode|
                #[trigger] found.contains(item) <==> exists|i: int|
                    0 <= i < words.len() && ColorMode::named(#[trigger] words[i]) == Some(item)
        },
    decreases words.len(),
{
    if words.len() > 0 {
        let head = words.drop_last();
        law_colors_named(head);
        let word = words.last();
        assert(words[words.len() - 1] == word);
        assert(forall|i: int| 0 <= i < head.len() ==> #[trigger] head[i] == words[i]);
        if colors_named(words) is Ok {
            assert forall|i: int| 0 <= i < words.len() implies ColorMode::named(#[trigger] words[i]) is Some by {
                if i < head.len() {
                    assert(ColorMode::named(head[i]) is Some);
                }
            }
            let before = colors_named(head)->Ok_0;
            let found = colors_named(words)->Ok_0;
            let last = ColorMode::named(word)->0;
            assert forall|item: ColorMode|
                #[trigger] found.contains(item) <==> exists|i: int|
                    0 <= i < words.len() && ColorMode::named(#[trigger] words[i]) == Some(item) by {
                if found.contains(item) {
                    if before.contains(item) {
                        let i = choose|i: int|
                            0 <= i < head.len() && ColorMode::named(#[trigger] head[i]) == Some(item);
                        assert(ColorMode::named(words[i]) == Some(item));
                    } else {
                        assert(item == last);
                        assert(ColorMode::named(words[words.len() - 1]) == Some(item));
                    }
                }
                if exists|i: int| 0 <= i < words.len() && ColorMode::named(#[trigger] words[i]) == Some(item) {
                    let i = choose|i: int|
                        0 <= i < words.len() && ColorMode::named(#[trigger] words[i]) == Some(item);
                    if i < head.len() {
                        assert(ColorMode::named(head[i]) == Some(item));
                        assert(before.contains(item));
                        let k = before.index_of(item);
                        assert(found[k] == item);
                    } else if before.contains(item) {
                        let k = before.index_of(item);
                        assert(found[k] == item);
                    } else {
                        assert(found[found.len() - 1] == item);
                    }
                }
            }
        }
        if forall|i: int| 0 <= i < words.len() ==> ColorMode::named(#[trigger] words[i]) is Some {
            assert forall|i: int| 0 <= i < head.len() implies ColorMode::named(#[trigger] head[i]) is Some by {
                assert(ColorMode::named(words[i]) is Some);
            }
            assert(ColorMode::named(words[words.len() - 1]) is Some);
        }
    }
}

/// More words keep the items of a list in their places and add at most one each,
/// at the end.
pub proof fn law_colors_named_keeps_order(words: Seq<Seq<char>>, word: Seq<char>)
    ensures
        colors_named(words.push(word)) matches Ok(longer) ==> colors_named(words) is Ok && (longer == colors_named(words)->Ok_0
            || longer == colors_named(words)->Ok_0.push(ColorMode::named(word)->0)),
{
    assert(words.push(word).drop_last() =~= words);
    assert(words.push(word).last() == word);
}

/// A list of variants names each once, in the order of first mention: the
/// list is understood exactly if every word is a name, and it has an item exactly
/// if a word names it.
pub proof fn law_variants_named(words: Seq<Seq<char>>)
    ensures
        variants_named(words) is Ok <==> forall|i: int| 0 <= i < words.len() ==> Variant::named(#[trigger] words[i]) is Some,
        variants_named(words) matches Ok(found) ==> {
            &&& found.no_duplicates()
            &&& forall|item: Variant|
                #[trigger] found.contains(item) <==> exists|i: int|
                    0 <= i < words.len() && Variant::named(#[trigger] words[i]) == Some(item)
        },
    decreases words.len(),
{
    if words.len() > 0 {
        let head = words.drop_last();
        law_variants_named(head);
        let word = words.last();
        assert(words[words.len() - 1] == word);
        assert(forall|i: int| 0 <= i < head.len() ==> #[trigger] head[i] == words[i]);
        if variants_named(words) is Ok {
            assert forall|i: int| 0 <= i < words.len() implies Variant::named(#[trigger] words[i]) is Some by {
                if i < head.len() {
                    assert(Variant::named(head[i]) is Some);
                }
            }
            let before = variants_named(head)->Ok_0;
            let found = variants_named(words)->Ok_0;
            let last = Variant::named(word)->0;
            assert forall|item: Variant|
                #[trigger] found.contains(item) <==> exists|i: int|
                    0 <= i < words.len() && Variant::named(#[trigger] words[i]) == Some(item) by {
                if found.contains(item) {
                    if before.contains(item) {
                        let i = choose|i: int|
                            0 <= i < head.len() && Variant::named(#[trigger] head[i]) == Some(item);
                        assert(Variant::named(words[i]) == Some(item));
                    } else {
                        assert(item == last);
                        assert(Variant::named(words[words.len() - 1]) == Some(item));
                    }
                }
                if exists|i: int| 0 <= i < words.len() && Variant::named(#[trigger] words[i]) == Some(item) {
                    let i = choose|i: int|
                        0 <= i < words.len() && Variant::named(#[trigger] words[i]) == Some(item);
                    if i < head.len() {
                        assert(Variant::named(head[i]) == Some(item));
                        assert(before.contains(item));
                        let k = before.index_of(item);
                        assert(found[k] == item);
                    } else if before.contains(item) {
                        let k = before.index_of(item);
                        assert(found[k] == item);
                    } else {
                        assert(found[found.len() - 1] == item);
                    }
                }
            }
        }
        if forall|i: int| 0 <= i < words.len() ==> Variant::named(#[trigger] words[i]) is Some {
            assert forall|i: int| 0 <= i < head.len() implies Variant::named(#[trigger] head[i]) is Some by {
                assert(Variant::named(words[i]) is Some);
            }
            assert(Variant::named(words[words.len() - 1]) is Some);
        }
    }
}

/// More words keep the items of a list in their places and add at most one each,
/// at the end.
pub proof fn law_variants_named_keeps_order(words: Seq<Seq<char>>, word: Seq<char>)
    ensures
        variants_named(words.push(word)) matches Ok(longer) ==> variants_named(words) is Ok && (longer == variants_named(words)->Ok_0
            || longer == variants_named(words)->Ok_0.push(Variant::named(word)->0)),
{
    assert(words.push(word).drop_last() =~= words);
    assert(words.push(word).last() == word);
}

/// A list of encoder profiles names each once, in the order of first mention: the
/// list is understood exactly if every word is a name, and it has an item exactly
/// if a word names it.
pub proof fn law_profiles_named(words: Seq<Seq<char>>)
    ensures
        profiles_named(words) is Ok <==> forall|i: int| 0 <= i < words.len() ==> HwEncoderProfile::named(#[trigger] words[i]) is Some,
        profiles_named(words) matches Ok(found) ==> {
            &&& found.no_duplicates()
            &&& forall|item: HwEncoderProfile|
                #[trigger] found.contains(item) <==> exists|i: int|
                    0 <= i < words.len() && HwEncoderProfile::named(#[trigger] words[i]) == Some(item)
        },
    decreases words.len(),
{
    if words.len() > 0 {
        let head = words.drop_last();
        law_profiles_named(head);
        let word = words.last();
        assert(words[words.len() - 1] == word);
        assert(forall|i: int| 0 <= i < head.len() ==> #[trigger] head[i] == words[i]);
        if profiles_named(words) is Ok {
            assert forall|i: int| 0 <= i < words.len() implies HwEncoderProfile::named(#[trigger] words[i]) is Some by {
                if i < head.len() {
                    assert(HwEncoderProfile::named(head[i]) is Some);
                }
            }
            let before = profiles_named(head)->Ok_0;
            let found = profiles_named(words)->Ok_0;
            let last = HwEncoderProfile::named(word)->0;
            assert forall|item: HwEncoderProfile|
                #[trigger] found.contains(item) <==> exists|i: int|
                    0 <= i < words.len() && HwEncoderProfile::named(#[trigger] words[i]) == Some(item) by {
                if found.contains(item) {
                    if before.contains(item) {
                        let i = choose|i: int|
                            0 <= i < head.len() && HwEncoderProfile::named(#[trigger] head[i]) == Some(item);
                        assert(HwEncoderProfile::named(words[i]) == Some(item));
                    } else {
                        assert(item == last);
                        assert(HwEncoderProfile::named(words[words.len() - 1]) == Some(item));
                    }
                }
                if exists|i: int| 0 <= i < words.len() && HwEncoderProfile::named(#[trigger] words[i]) == Some(item) {
                    let i = choose|i: int|
                        0 <= i < words.len() && HwEncoderProfile::named(#[trigger] words[i]) == Some(item);
                    if i < head.len() {
                        assert(HwEncoderProfile::named(head[i]) == Some(item));
                        assert(before.contains(item));
                        let k = before.index_of(item);
                        assert(found[k] == item);
                    } else if before.contains(item) {
                        let k = before.index_of(item);
                        assert(found[k] == item);
                    } else {
                        assert(found[found.len() - 1] == item);
                    }
                }
            }
        }
        if forall|i: int| 0 <= i < words.len() ==> HwEncoderProfile::named(#[trigger] words[i]) is Some {
            assert forall|i: int| 0 <= i < head.len() implies HwEncoderProfile::named(#[trigger] head[i]) is Some by {
                assert(HwEncoderProfile::named(words[i]) is Some);
            }
            assert(HwEncoderProfile::named(words[words.len() - 1]) is Some);
        }
    }
}

/// More words keep the items of a list in their places and add at most one each,
/// at the end.
pub proof fn law_profiles_named_keeps_order(words: Seq<Seq<char>>, word: Seq<char>)
    ensures
        profiles_named(words.push(word)) matches Ok(longer) ==> profiles_named(words) is Ok && (longer == profiles_named(words)->Ok_0
            || longer == profiles_named(words)->Ok_0.push(HwEncoderProfile::named(word)->0)),
{
    assert(words.push(word).drop_last() =~= words);
    assert(words.push(word).last() == word);
}

/// The words of a list are those that are not empty, in their order; there has to
/// be one.
pub proof fn law_filled_words(words: Seq<Seq<char>>)
    ensures
        filled(words) == words.filter(|word: Seq<char>| word.len() > 0),
    decreases words.len(),
{
    reveal(Seq::filter);
    if words.len() > 0 {
        law_filled_words(words.drop_last());
    }
}

/// A list of texts is refused exactly if it holds nothing but separators.
pub proof fn law_string_list_is_not_empty(key: Seq<char>, value: Seq<char>)
    ensures
        string_list(key, value) is Err <==> forall|i: int|
            0 <= i < value.len() ==> #[trigger] value[i] == ',',
        string_list(key, value) matches Ok(words) ==> words.len() > 0,
    decreases value.len(),
{
    law_parts_make_up_the_text(value, ',');
    lemma_only_separators(value);
}

proof fn lemma_only_separators(value: Seq<char>)
    ensures
        filled(split_on(value, ',')).len() == 0 <==> forall|i: int|
            0 <= i < value.len() ==> #[trigger] value[i] == ',',
    decreases value.len(),
{
    let parts = split_on(value, ',');
    law_parts_make_up_the_text(value, ',');
    if value.len() == 0 {
        assert(parts.drop_last() =~= seq![]);
        assert(filled(parts.drop_last()).len() == 0);
    } else {
        let head = value.drop_last();
        lemma_only_separators(head);
        law_parts_make_up_the_text(head, ',');
        let before = split_on(head, ',');
        assert(value[value.len() - 1] == value.last());
        assert(forall|i: int| 0 <= i < head.len() ==> #[trigger] head[i] == value[i]);
        if value.last() == ',' {
            assert(parts.drop_last() =~= before);
            if forall|i: int| 0 <= i < head.len() ==> #[trigger] head[i] == ',' {
                assert forall|i: int| 0 <= i < value.len() implies #[trigger] value[i] == ',' by {
                    if i < head.len() {
                        assert(head[i] == ',');
                    }
                }
            }
        } else {
            assert(parts.last().len() > 0);
        }
    }
}

// ---------------------------------------------------------------------------
// Usable options
// ---------------------------------------------------------------------------

/// A run can start exactly if its sizes, counts and rate are not zero and its
/// quality, or each of its qualities, is positive; a hardware run needs
/// qualities, encoders and profiles. A recording needs frames, a rate and
/// patience, and displays are counted from one.
pub proof fn law_usable_options(run: RunModel, hardware: HardwareModel, record: RecordModel)
    ensures
        run_usable(run) <==> run.width > 0 && run.height > 0 && run.frames > 0 && run.fps > 0 && run.repeat
            > 0 && is_positive(run.quality),
        hardware_usable(hardware) ==> hardware.width > 0 && hardware.height > 0 && hardware.frames > 0
            && hardware.fps > 0 && hardware.repeat > 0 && hardware.qualities.len() > 0
            && hardware.encoders.len() > 0 && hardware.profiles.len() > 0,
        forall|i: int|
            hardware_usable(hardware) && 0 <= i < hardware.qualities.len() ==> is_positive(
                #[trigger] hardware.qualities[i],
            ),
        hardware.width > 0 && hardware.height > 0 && hardware.frames > 0 && hardware.fps > 0
            && hardware.repeat > 0 && hardware.qualities.len() > 0 && hardware.encoders.len() > 0
            && hardware.profiles.len() > 0 && (forall|i: int|
            0 <= i < hardware.qualities.len() ==> is_positive(#[trigger] hardware.qualities[i]))
            ==> hardware_usable(hardware),
        record_usable(record) <==> record.frames > 0 && record.fps > 0 && record.idle_timeout_ms > 0
            && record.display != Some(0usize),
{
}

/// The first argument names what the benchmark does, and the others are its
/// options; hardware runs exist only where the system has them.
pub proof fn law_benchmark_commands_are_named(
    args: Seq<Seq<char>>,
    hardware: bool,
    run_dir: Seq<char>,
    hardware_dir: Seq<char>,
)
    ensures
        bench_line(seq!["run"@] + args, hardware, run_dir, hardware_dir) == match run_line(run_dir, args) {
            Ok(options) => Ok::<BenchModel, Seq<char>>(BenchModel::Run(options)),
            Err(err) => Err(err),
        },
        bench_line(seq!["run-hw"@] + args, true, run_dir, hardware_dir) == match hardware_line(
            hardware_dir,
            args,
        ) {
            Ok(options) => Ok::<BenchModel, Seq<char>>(BenchModel::RunHardware(options)),
            Err(err) => Err(err),
        },
        bench_line(seq!["run-hw"@] + args, false, run_dir, hardware_dir) is Err,
        bench_line(seq!["record"@] + args, hardware, run_dir, hardware_dir) == match record_line(args) {
            Ok(options) => Ok::<BenchModel, Seq<char>>(BenchModel::Record(options)),
            Err(err) => Err(err),
        },
        bench_line(seq!["list-displays"@], hardware, run_dir, hardware_dir) == Ok::<BenchModel, Seq<char>>(
            BenchModel::ListDisplays,
        ),
        bench_line(seq![], hardware, run_dir, hardware_dir) == Ok::<BenchModel, Seq<char>>(
            BenchModel::Run(run_defaults(run_dir)),
        ),
{
    reveal_strlit("-h");
    reveal_strlit("--help");
    reveal_strlit("help");
    reveal_strlit("run");
    reveal_strlit("run-hw");
    reveal_strlit("record");
    reveal_strlit("export-bgra");
    reveal_strlit("analyze-yuv420");
    reveal_strlit("list-displays");
    assert("-h"@.len() == 2);
    assert("--help"@.len() == 6 && "--help"@[0] == '-');
    assert("help"@.len() == 4);
    assert("run"@.len() == 3);
    assert("run-hw"@.len() == 6 && "run-hw"@[1] == 'u' && "run-hw"@[0] == 'r');
    assert("record"@.len() == 6 && "record"@[1] == 'e' && "record"@[0] == 'r');
    assert("export-bgra"@.len() == 11);
    assert("analyze-yuv420"@.len() == 14);
    assert("list-displays"@.len() == 13);
    assert((seq!["run"@] + args).skip(1) =~= args);
    assert((seq!["run-hw"@] + args).skip(1) =~= args);
    assert((seq!["record"@] + args).skip(1) =~= args);
}

} // verus!
