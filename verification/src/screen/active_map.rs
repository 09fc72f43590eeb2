//! The encoder variants under test and the active maps that some of them use.
use vstd::prelude::*;
use vstd::string::*;

use crate::screen::corpus::saturated;
use crate::screen::yuv::{active_count, lemma_active_count_all, lemma_place};
use crate::text::text_eq;

verus! {

/// An encoder configuration under test.
#[derive(Clone, Copy, Debug, PartialEq, Eq, Structural)]
pub enum Variant {
    Baseline,
    ScreenAa,
    AdaptiveSharpness,
    AutoTiles,
    Intrabc,
    ActiveMap,
    ActiveMapRefresh,
    ActiveMapWarmup,
    ActiveMapHold,
    ActiveMapRecovery,
    Combined,
}

/// How an active map is derived from the blocks that changed.
#[derive(Clone, Copy, Debug, PartialEq, Eq, Structural)]
pub enum ActiveMapStrategy {
    Naive,
    RotatingRefresh,
    Warmup,
    HoldExpanded,
    Recovery,
}

/// How the encoder detects screen content.
#[derive(Clone, Copy, Debug, PartialEq, Eq, Structural)]
pub enum ScreenDetection {
    AntialiasingAware,
}

/// The encoder controls of a variant; what is not set stays at its default.
#[derive(Clone, Copy, Debug, PartialEq, Eq, Structural)]
pub struct EncoderTuning {
    pub cpu_used: Option<u32>,
    pub screen_detection: Option<ScreenDetection>,
    pub adaptive_sharpness: Option<u32>,
    pub auto_tiles: bool,
    pub enable_intrabc: bool,
}

impl Variant {
    /// The variant's name.
    pub open spec fn name(self) -> Seq<char> {
        match self {
            Variant::Baseline => "baseline"@,
            Variant::ScreenAa => "screen-aa"@,
            Variant::AdaptiveSharpness => "adaptive-sharpness"@,
            Variant::AutoTiles => "auto-tiles"@,
            Variant::Intrabc => "intrabc"@,
            Variant::ActiveMap => "active-map"@,
            Variant::ActiveMapRefresh => "active-map-refresh"@,
            Variant::ActiveMapWarmup => "active-map-warmup"@,
            Variant::ActiveMapHold => "active-map-hold"@,
            Variant::ActiveMapRecovery => "active-map-recovery"@,
            Variant::Combined => "combined"@,
        }
    }

    /// The variant that a text names.
    pub open spec fn named(value: Seq<char>) -> Option<Variant> {
        if value == "baseline"@ {
            Some(Variant::Baseline)
        } else if value == "screen-aa"@ {
            Some(Variant::ScreenAa)
        } else if value == "adaptive-sharpness"@ {
            Some(Variant::AdaptiveSharpness)
        } else if value == "auto-tiles"@ {
            Some(Variant::AutoTiles)
        } else if value == "intrabc"@ {
            Some(Variant::Intrabc)
        } else if value == "active-map"@ {
            Some(Variant::ActiveMap)
        } else if value == "active-map-refresh"@ {
            Some(Variant::ActiveMapRefresh)
        } else if value == "active-map-warmup"@ {
            Some(Variant::ActiveMapWarmup)
        } else if value == "active-map-hold"@ {
            Some(Variant::ActiveMapHold)
        } else if value == "active-map-recovery"@ {
            Some(Variant::ActiveMapRecovery)
        } else if value == "combined"@ {
            Some(Variant::Combined)
        } else {
            None
        }
    }

    /// All variants, in the order in which they run.
    pub open spec fn listed() -> Seq<Variant> {
        seq![
            Variant::Baseline,
            Variant::ScreenAa,
            Variant::AdaptiveSharpness,
            Variant::AutoTiles,
            Variant::Intrabc,
            Variant::ActiveMap,
            Variant::ActiveMapRefresh,
            Variant::ActiveMapWarmup,
            Variant::ActiveMapHold,
            Variant::ActiveMapRecovery,
            Variant::Combined,
        ]
    }

    pub fn parse(value: &str) -> (variant: Option<Variant>)
        ensures
            variant == Variant::named(value@),
    {
        if text_eq(value, "baseline") {
            Some(Variant::Baseline)
        } else if text_eq(value, "screen-aa") {
            Some(Variant::ScreenAa)
        } else if text_eq(value, "adaptive-sharpness") {
            Some(Variant::AdaptiveSharpness)
        } else if text_eq(value, "auto-tiles") {
            Some(Variant::AutoTiles)
        } else if text_eq(value, "intrabc") {
            Some(Variant::Intrabc)
        } else if text_eq(value, "active-map") {
            Some(Variant::ActiveMap)
        } else if text_eq(value, "active-map-refresh") {
            Some(Variant::ActiveMapRefresh)
        } else if text_eq(value, "active-map-warmup") {
            Some(Variant::ActiveMapWarmup)
        } else if text_eq(value, "active-map-hold") {
            Some(Variant::ActiveMapHold)
        } else if text_eq(value, "active-map-recovery") {
            Some(Variant::ActiveMapRecovery)
        } else if text_eq(value, "combined") {
            Some(Variant::Combined)
        } else {
            None
        }
    }

    pub fn all() -> (variants: Vec<Variant>)
        ensures
            variants@ == Variant::listed(),
    {
        let mut variants: Vec<Variant> = Vec::new();
        variants.push(Variant::Baseline);
        variants.push(Variant::ScreenAa);
        variants.push(Variant::AdaptiveSharpness);
        variants.push(Variant::AutoTiles);
        variants.push(Variant::Intrabc);
        variants.push(Variant::ActiveMap);
        variants.push(Variant::ActiveMapRefresh);
        variants.push(Variant::ActiveMapWarmup);
        variants.push(Variant::ActiveMapHold);
        variants.push(Variant::ActiveMapRecovery);
        variants.push(Variant::Combined);
        assert(variants@ =~= Variant::listed());
        variants
    }

    pub fn label(self) -> (text: &'static str)
        ensures
            text@ == self.name(),
    {
        match self {
            Variant::Baseline => "baseline",
            Variant::ScreenAa => "screen-aa",
            Variant::AdaptiveSharpness => "adaptive-sharpness",
            Variant::AutoTiles => "auto-tiles",
            Variant::Intrabc => "intrabc",
            Variant::ActiveMap => "active-map",
            Variant::ActiveMapRefresh => "active-map-refresh",
            Variant::ActiveMapWarmup => "active-map-warmup",
            Variant::ActiveMapHold => "active-map-hold",
            Variant::ActiveMapRecovery => "active-map-recovery",
            Variant::Combined => "combined",
        }
    }

    /// The encoder controls: every variant runs at the same speed.
    pub fn tuning(self) -> (tuning: EncoderTuning)
        ensures
            tuning.cpu_used == Some(10u32),
            tuning.screen_detection == if self == Variant::ScreenAa || self == Variant::Combined {
                Some(ScreenDetection::AntialiasingAware)
            } else {
                None
            },
            tuning.adaptive_sharpness == if self == Variant::AdaptiveSharpness || self
                == Variant::Combined {
                Some(4u32)
            } else {
                None
            },
            tuning.auto_tiles == (self == Variant::AutoTiles || self == Variant::Combined),
            tuning.enable_intrabc == (self == Variant::Intrabc || self == Variant::Combined),
    {
        let mut tuning = EncoderTuning {
            cpu_used: Some(10),
            screen_detection: None,
            adaptive_sharpness: None,
            auto_tiles: false,
            enable_intrabc: false,
        };
        match self {
            Variant::ScreenAa => {
                tuning.screen_detection = Some(ScreenDetection::AntialiasingAware);
            },
            Variant::AdaptiveSharpness => {
                tuning.adaptive_sharpness = Some(4);
            },
            Variant::AutoTiles => {
                tuning.auto_tiles = true;
            },
            Variant::Intrabc => {
                tuning.enable_intrabc = true;
            },
            Variant::Combined => {
                tuning.screen_detection = Some(ScreenDetection::AntialiasingAware);
                tuning.adaptive_sharpness = Some(4);
                tuning.auto_tiles = true;
                tuning.enable_intrabc = true;
            },
            _ => {},
        }
        tuning
    }

    /// The active map that a variant uses.
    pub open spec fn strategy(self) -> Option<ActiveMapStrategy> {
        match self {
            Variant::ActiveMap => Some(ActiveMapStrategy::Naive),
            Variant::ActiveMapRefresh => Some(ActiveMapStrategy::RotatingRefresh),
            Variant::ActiveMapWarmup => Some(ActiveMapStrategy::Warmup),
            Variant::ActiveMapHold => Some(ActiveMapStrategy::HoldExpanded),
            Variant::ActiveMapRecovery | Variant::Combined => Some(ActiveMapStrategy::Recovery),
            _ => None,
        }
    }

    pub fn active_map_strategy(self) -> (strategy: Option<ActiveMapStrategy>)
        ensures
            strategy == self.strategy(),
    {
        match self {
            Variant::ActiveMap => Some(ActiveMapStrategy::Naive),
            Variant::ActiveMapRefresh => Some(ActiveMapStrategy::RotatingRefresh),
            Variant::ActiveMapWarmup => Some(ActiveMapStrategy::Warmup),
            Variant::ActiveMapHold => Some(ActiveMapStrategy::HoldExpanded),
            Variant::ActiveMapRecovery | Variant::Combined => Some(ActiveMapStrategy::Recovery),
            _ => None,
        }
    }
}

/// A variant's label parses to the variant.
pub proof fn law_variant_label_parses(variant: Variant)
    ensures
        Variant::named(variant.name()) == Some(variant),
{
    reveal_strlit("baseline");
    reveal_strlit("screen-aa");
    reveal_strlit("adaptive-sharpness");
    reveal_strlit("auto-tiles");
    reveal_strlit("intrabc");
    reveal_strlit("active-map");
    reveal_strlit("active-map-refresh");
    reveal_strlit("active-map-warmup");
    reveal_strlit("active-map-hold");
    reveal_strlit("active-map-recovery");
    reveal_strlit("combined");
    assert("baseline"@.len() == 8);
    assert("screen-aa"@.len() == 9);
    assert("adaptive-sharpness"@.len() == 18);
    assert("auto-tiles"@.len() == 10);
    assert("intrabc"@.len() == 7);
    assert("active-map"@.len() == 10);
    assert("active-map-refresh"@.len() == 18);
    assert("active-map-warmup"@.len() == 17);
    assert("active-map-hold"@.len() == 15);
    assert("active-map-recovery"@.len() == 19);
    assert("combined"@.len() == 8);
    assert("baseline"@[0] == 'b');
    assert("combined"@[0] == 'c');
    assert("adaptive-sharpness"@[1] == 'd');
    assert("active-map-refresh"@[1] == 'c');
    assert("auto-tiles"@[1] == 'u');
    assert("active-map"@[1] == 'c');
}

/// Every variant is in the list of all.
pub proof fn law_all_variants_are_listed(variant: Variant)
    ensures
        Variant::listed().contains(variant),
{
    let all = Variant::listed();
    let place: int = match variant {
        Variant::Baseline => 0,
        Variant::ScreenAa => 1,
        Variant::AdaptiveSharpness => 2,
        Variant::AutoTiles => 3,
        Variant::Intrabc => 4,
        Variant::ActiveMap => 5,
        Variant::ActiveMapRefresh => 6,
        Variant::ActiveMapWarmup => 7,
        Variant::ActiveMapHold => 8,
        Variant::ActiveMapRecovery => 9,
        Variant::Combined => 10,
    };
    assert(all[place] == variant);
}

// ---------------------------------------------------------------------------
// Active maps
// ---------------------------------------------------------------------------

pub const HOLD_FRAMES: u8 = 8;

pub const PERIODIC_RECOVERY_SECONDS: usize = 5;

pub const PERIODIC_RECOVERY_FRAMES: usize = 5;

pub const SCENE_CHANGE_PERCENT: usize = 60;

/// Whether two blocks of a map with `cols` columns touch, or are the same.
pub open spec fn touch(one: int, other: int, cols: int) -> bool {
    &&& -1 <= one % cols - other % cols <= 1
    &&& -1 <= one / cols - other / cols <= 1
}

/// Whether a block or one that touches it is active.
pub open spec fn near_active(map: Seq<u8>, cols: int, block: int) -> bool {
    exists|other: int| 0 <= other < map.len() && #[trigger] map[other] != 0 && touch(block, other, cols)
}

/// For how many more frames each block stays active: eight near an active block,
/// else one fewer than before.
pub open spec fn held(hold: Seq<u8>, map: Seq<u8>, cols: int) -> Seq<u8> {
    Seq::new(
        hold.len(),
        |block: int|
            if near_active(map, cols, block) {
                HOLD_FRAMES
            } else if hold[block] > 0 {
                (hold[block] - 1) as u8
            } else {
                0
            },
    )
}

/// The map of the blocks that stay active.
pub open spec fn held_map(hold: Seq<u8>) -> Seq<u8> {
    hold.map_values(|left: u8| if left != 0 { 1u8 } else { 0u8 })
}

/// A map with all blocks active.
pub open spec fn full_map(len: nat) -> Seq<u8> {
    Seq::new(len, |block: int| 1u8)
}

/// The map with every `period`th block activated, another one in each frame.
pub open spec fn refreshed(map: Seq<u8>, frame: int, period: int) -> Seq<u8> {
    Seq::new(
        map.len(),
        |block: int| if (block + frame) % period == 0 { 1u8 } else { map[block] },
    )
}

/// What a controller holds between frames.
pub struct ControllerModel {
    pub strategy: ActiveMapStrategy,
    pub cols: usize,
    pub rows: usize,
    pub fps: usize,
    pub hold: Seq<u8>,
    pub full_active_remaining: usize,
}

impl ControllerModel {
    pub open spec fn wf(self) -> bool {
        &&& self.hold.len() == self.cols * self.rows
        &&& self.fps >= 1
    }

    /// Whether so many changed blocks are a change of scene.
    pub open spec fn scene_changed(self, frame: usize, detected: usize, len: nat) -> bool {
        &&& frame >= self.fps
        &&& saturated(detected as int, 100) >= saturated(len as int, SCENE_CHANGE_PERCENT as int)
    }

    /// Whether the periodic recovery starts with the frame.
    pub open spec fn recovery_due(self, frame: usize) -> bool {
        frame > 0 && frame as int % saturated(self.fps as int, PERIODIC_RECOVERY_SECONDS as int) == 0
    }

    /// For how many frames all blocks are active, this frame among them.
    pub open spec fn burst(self, frame: usize, detected: usize, len: nat) -> int {
        let after_scene: int = if self.scene_changed(frame, detected, len)
            && self.full_active_remaining < self.fps / 2 {
            self.fps as int / 2
        } else {
            self.full_active_remaining as int
        };
        if self.recovery_due(frame) && after_scene < PERIODIC_RECOVERY_FRAMES {
            PERIODIC_RECOVERY_FRAMES as int
        } else {
            after_scene
        }
    }

    /// The controller and the map of a frame, from the blocks that changed.
    pub open spec fn applied(self, map: Seq<u8>, frame: usize, detected: usize) -> (
        ControllerModel,
        Seq<u8>,
    ) {
        let hold = held(self.hold, map, self.cols as int);
        match self.strategy {
            ActiveMapStrategy::Naive => (self, map),
            ActiveMapStrategy::RotatingRefresh => (
                self,
                refreshed(map, frame as int, self.fps as int),
            ),
            ActiveMapStrategy::Warmup => (
                self,
                if frame < self.fps {
                    full_map(map.len())
                } else {
                    map
                },
            ),
            ActiveMapStrategy::HoldExpanded => (ControllerModel { hold, ..self }, held_map(hold)),
            ActiveMapStrategy::Recovery => {
                let burst = self.burst(frame, detected, map.len());
                if frame < self.fps || burst > 0 {
                    (
                        ControllerModel {
                            hold,
                            full_active_remaining: (if burst > 0 {
                                burst - 1
                            } else {
                                0
                            }) as usize,
                            ..self
                        },
                        full_map(map.len()),
                    )
                } else {
                    (
                        ControllerModel { hold, full_active_remaining: 0, ..self },
                        held_map(hold),
                    )
                }
            },
        }
    }
}

/// Derives active maps from the blocks that changed.
#[derive(Debug)]
pub struct ActiveMapController {
    pub strategy: ActiveMapStrategy,
    pub cols: usize,
    pub rows: usize,
    pub fps: usize,
    pub hold: Vec<u8>,
    pub full_active_remaining: usize,
}

impl View for ActiveMapController {
    type V = ControllerModel;

    open spec fn view(&self) -> ControllerModel {
        ControllerModel {
            strategy: self.strategy,
            cols: self.cols,
            rows: self.rows,
            fps: self.fps,
            hold: self.hold@,
            full_active_remaining: self.full_active_remaining,
        }
    }
}

fn fill_map(map: &mut [u8])
    ensures
        final(map)@ == full_map(old(map)@.len()),
{
    let mut i: usize = 0;
    while i < map.len()
        invariant
            i <= map.len(),
            map@.len() == old(map)@.len(),
            forall|k: int| 0 <= k < i ==> map@[k] == 1,
        decreases map.len() - i,
    {
        map[i] = 1;
        i += 1;
    }
    assert(map@ =~= full_map(old(map)@.len()));
}

/// Counts the active blocks of a map.
pub fn count_active(map: &[u8]) -> (count: usize)
    ensures
        count == active_count(map@),
{
    let mut count: usize = 0;
    let mut i: usize = 0;
    assert(map@.take(0) =~= seq![]);
    while i < map.len()
        invariant
            i <= map.len(),
            count == active_count(map@.take(i as int)),
            count <= i,
        decreases map.len() - i,
    {
        assert(map@.take(i + 1).drop_last() =~= map@.take(i as int));
        if map[i] != 0 {
            count = count + 1;
        }
        i += 1;
    }
    assert(map@.take(i as int) =~= map@);
    count
}

/// Activates every `period`th block of the map, another one in each frame.
pub fn apply_rotating_active_refresh(active_map: &mut [u8], frame_index: usize, period: usize)
    ensures
        final(active_map)@ == refreshed(
            old(active_map)@,
            frame_index as int,
            if period == 0 { 1 } else { period as int },
        ),
{
    let step: usize = if period == 0 { 1 } else { period };
    let ghost before = active_map@;
    let mut block: usize = 0;
    while block < active_map.len()
        invariant
            block <= active_map.len(),
            step >= 1,
            active_map@.len() == before.len(),
            forall|k: int|
                0 <= k < block ==> #[trigger] active_map@[k] == refreshed(
                    before,
                    frame_index as int,
                    step as int,
                )[k],
            forall|k: int| block <= k < before.len() ==> #[trigger] active_map@[k] == before[k],
        decreases active_map.len() - block,
    {
        proof {
            vstd::arithmetic::div_mod::lemma_add_mod_noop(
                block as int,
                frame_index as int,
                step as int,
            );
        }
        if (block as u128 % step as u128 + frame_index as u128 % step as u128) % step as u128 == 0 {
            active_map[block] = 1;
        }
        block += 1;
    }
    assert(active_map@ =~= refreshed(before, frame_index as int, step as int));
}

fn product(a: usize, b: usize) -> (out: usize)
    ensures
        out == saturated(a as int, b as int),
{
    match a.checked_mul(b) {
        Some(out) => out,
        None => usize::MAX,
    }
}

/// The row and column of a block.
proof fn lemma_coordinates(row: int, col: int, cols: int)
    requires
        0 <= col < cols,
        0 <= row,
    ensures
        (row * cols + col) / cols == row,
        (row * cols + col) % cols == col,
{
    assert(row * cols == cols * row) by (nonlinear_arith);
    vstd::arithmetic::div_mod::lemma_fundamental_div_mod_converse(row * cols + col, cols, row, col);
}

impl ActiveMapController {
    pub open spec fn wf(&self) -> bool {
        self@.wf()
    }

    pub fn new(strategy: ActiveMapStrategy, cols: usize, rows: usize, fps: usize) -> (controller: ActiveMapController)
        requires
            cols * rows <= usize::MAX,
        ensures
            controller.wf(),
            controller@ == (ControllerModel {
                strategy,
                cols,
                rows,
                fps: if fps == 0 { 1 } else { fps },
                hold: Seq::new((cols * rows) as nat, |block: int| 0u8),
                full_active_remaining: 0,
            }),
    {
        assert(0 <= cols * rows) by (nonlinear_arith)
            requires
                0 <= cols,
                0 <= rows,
        ;
        let hold: Vec<u8> = vec![0u8; cols * rows];
        assert(hold@ =~= Seq::new((cols * rows) as nat, |block: int| 0u8));
        ActiveMapController {
            strategy,
            cols,
            rows,
            fps: if fps == 0 { 1 } else { fps },
            hold,
            full_active_remaining: 0,
        }
    }

    /// Turns the blocks that changed into the active map of a frame; returns how
    /// many blocks are active.
    pub fn apply(&mut self, active_map: &mut [u8], frame_index: usize, detected_active: usize) -> (active: usize)
        requires
            old(self).wf(),
            old(active_map)@.len() == old(self).cols * old(self).rows,
        ensures
            final(self).wf(),
            (final(self)@, final(active_map)@) == old(self)@.applied(
                old(active_map)@,
                frame_index,
                detected_active,
            ),
            active == active_count(final(active_map)@),
    {
        match self.strategy {
            ActiveMapStrategy::Naive => {},
            ActiveMapStrategy::RotatingRefresh => {
                apply_rotating_active_refresh(active_map, frame_index, self.fps);
            },
            ActiveMapStrategy::Warmup => {
                if frame_index < self.fps {
                    fill_map(active_map);
                }
            },
            ActiveMapStrategy::HoldExpanded => {
                self.expand_and_hold(active_map);
            },
            ActiveMapStrategy::Recovery => {
                let ghost len = active_map@.len();
                self.expand_and_hold(active_map);
                if frame_index >= self.fps && product(detected_active, 100) >= product(
                    active_map.len(),
                    SCENE_CHANGE_PERCENT,
                ) {
                    if self.full_active_remaining < self.fps / 2 {
                        self.full_active_remaining = self.fps / 2;
                    }
                }
                let recovery_period: usize = product(self.fps, PERIODIC_RECOVERY_SECONDS);
                if frame_index > 0 && frame_index % recovery_period == 0 {
                    if self.full_active_remaining < PERIODIC_RECOVERY_FRAMES {
                        self.full_active_remaining = PERIODIC_RECOVERY_FRAMES;
                    }
                }
                if frame_index < self.fps || self.full_active_remaining > 0 {
                    fill_map(active_map);
                    self.full_active_remaining = self.full_active_remaining.saturating_sub(1);
                }
            },
        }
        count_active(active_map)
    }

    /// Whether the block or one that touches it is active.
    fn touches_active(&self, active_map: &[u8], row: usize, col: usize) -> (near: bool)
        requires
            active_map@.len() == self.cols * self.rows,
            row < self.rows,
            col < self.cols,
        ensures
            near == near_active(active_map@, self.cols as int, row * self.cols + col),
    {
        let cols: usize = self.cols;
        let ghost block = row * cols + col;
        proof {
            lemma_coordinates(row as int, col as int, cols as int);
            assert(active_map@.len() == active_map.len());
        }
        let top: usize = if row == 0 { 0 } else { row - 1 };
        let bottom: usize = if row + 1 < self.rows { row + 1 } else { row };
        let left: usize = if col == 0 { 0 } else { col - 1 };
        let right: usize = if col + 1 < cols { col + 1 } else { col };
        let mut r: usize = top;
        while r <= bottom
            invariant
                top <= r <= bottom + 1,
                bottom < self.rows,
                left <= right < cols,
                cols == self.cols,
                active_map@.len() == cols * self.rows,
                active_map@.len() == active_map.len(),
                top == if row == 0 { 0int } else { row - 1 },
                bottom == if row + 1 < self.rows { row + 1 } else { row as int },
                left == if col == 0 { 0int } else { col - 1 },
                right == if col + 1 < cols { col + 1 } else { col as int },
                col < cols,
                row < self.rows,
                block == row * cols + col,
                block / (cols as int) == row,
                block % (cols as int) == col as int,
                forall|nr: int, nc: int|
                    top <= nr < r && left <= nc <= right ==> #[trigger] active_map@[nr * cols + nc] == 0,
            decreases bottom + 1 - r,
        {
            let mut c: usize = left;
            while c <= right
                invariant
                    top <= r <= bottom,
                    bottom < self.rows,
                    left <= c <= right + 1,
                    left <= right < cols,
                    cols == self.cols,
                    active_map@.len() == cols * self.rows,
                    active_map@.len() == active_map.len(),
                    top == if row == 0 { 0int } else { row - 1 },
                    bottom == if row + 1 < self.rows { row + 1 } else { row as int },
                    left == if col == 0 { 0int } else { col - 1 },
                    right == if col + 1 < cols { col + 1 } else { col as int },
                    col < cols,
                    row < self.rows,
                    block == row * cols + col,
                    block / (cols as int) == row,
                    block % (cols as int) == col as int,
                    forall|nr: int, nc: int|
                        top <= nr < r && left <= nc <= right ==> #[trigger] active_map@[nr * cols + nc] == 0,
                    forall|nc: int| left <= nc < c ==> #[trigger] active_map@[r * cols + nc] == 0,
                decreases right + 1 - c,
            {
                proof {
                    lemma_place(c as int, r as int, cols as int, self.rows as int);
                    lemma_coordinates(r as int, c as int, cols as int);
                    assert(0 <= r * cols) by (nonlinear_arith)
                        requires
                            0 <= r,
                            0 <= cols,
                    ;
                }
                if active_map[r * cols + c] != 0 {
                    proof {
                        let other = r * cols + c;
                        assert(active_map@[other] != 0 && touch(block, other, cols as int));
                    }
                    return true;
                }
                c += 1;
            }
            r += 1;
        }
        proof {
            if near_active(active_map@, cols as int, block) {
                let other = choose|other: int|
                    0 <= other < active_map@.len() && #[trigger] active_map@[other] != 0 && touch(
                        block,
                        other,
                        cols as int,
                    );
                let nr = other / cols as int;
                let nc = other % cols as int;
                vstd::arithmetic::div_mod::lemma_fundamental_div_mod(other, cols as int);
                assert(cols * nr == nr * cols) by (nonlinear_arith);
                assert(0 <= nr < self.rows) by (nonlinear_arith)
                    requires
                        other == cols * nr + nc,
                        0 <= nc < cols,
                        0 <= other < cols * self.rows,
                ;
                assert(active_map@[nr * cols + nc] == 0);
            }
        }
        false
    }

    /// Spreads activity to the blocks around it and keeps it for eight frames.
    pub fn expand_and_hold(&mut self, active_map: &mut [u8])
        requires
            old(self).wf(),
            old(active_map)@.len() == old(self).cols * old(self).rows,
        ensures
            final(self).wf(),
            final(self)@ == (ControllerModel {
                hold: held(old(self)@.hold, old(active_map)@, old(self).cols as int),
                ..old(self)@
            }),
            final(active_map)@ == held_map(final(self)@.hold),
    {
        let ghost before = self@;
        let ghost map = active_map@;
        let cols: usize = self.cols;
        let rows: usize = self.rows;
        let ghost next = held(before.hold, map, cols as int);
        let mut row: usize = 0;
        while row < rows
            invariant
                row <= rows,
                cols == before.cols,
                rows == before.rows,
                active_map@ == map,
                map.len() == cols * rows,
                before.wf(),
                next == held(before.hold, map, cols as int),
                self@ == (ControllerModel { hold: self.hold@, ..before }),
                self.hold@.len() == before.hold.len(),
                0 <= row * cols <= map.len(),
                forall|k: int| 0 <= k < row * cols ==> #[trigger] self.hold@[k] == next[k],
                forall|k: int| row * cols <= k < map.len() ==> #[trigger] self.hold@[k] == before.hold[k],
            decreases rows - row,
        {
            let mut col: usize = 0;
            while col < cols
                invariant
                    col <= cols,
                    row < rows,
                    cols == before.cols,
                    rows == before.rows,
                    active_map@ == map,
                    map.len() == cols * rows,
                    before.wf(),
                    next == held(before.hold, map, cols as int),
                    self@ == (ControllerModel { hold: self.hold@, ..before }),
                    self.hold@.len() == before.hold.len(),
                    0 <= row * cols,
                    forall|k: int| 0 <= k < row * cols + col ==> #[trigger] self.hold@[k] == next[k],
                    forall|k: int|
                        row * cols + col <= k < map.len() ==> #[trigger] self.hold@[k] == before.hold[k],
                decreases cols - col,
            {
                proof {
                    lemma_place(col as int, row as int, cols as int, rows as int);
                    assert(self.hold@.len() == self.hold.len());
                }
                let index: usize = row * cols + col;
                let near = self.touches_active(active_map, row, col);
                let left: u8 = self.hold[index];
                self.hold.set(
                    index,
                    if near {
                        HOLD_FRAMES
                    } else {
                        left.saturating_sub(1)
                    },
                );
                col += 1;
            }
            proof {
                assert((row + 1) * cols == row * cols + cols) by (nonlinear_arith);
                assert((row + 1) * cols <= cols * rows) by (nonlinear_arith)
                    requires
                        row + 1 <= rows,
                        0 <= cols,
                ;
            }
            row += 1;
        }
        proof {
            assert(rows * cols == cols * rows) by (nonlinear_arith);
            assert(self.hold@ =~= next);
        }
        let mut i: usize = 0;
        while i < active_map.len()
            invariant
                i <= active_map.len(),
                active_map@.len() == map.len(),
                self.hold@ == next,
                next.len() == map.len(),
                self@ == (ControllerModel { hold: self.hold@, ..before }),
                forall|k: int| 0 <= k < i ==> #[trigger] active_map@[k] == held_map(next)[k],
            decreases active_map.len() - i,
        {
            active_map[i] = if self.hold[i] != 0 { 1 } else { 0 };
            i += 1;
        }
        assert(active_map@ =~= held_map(next));
    }
}

// ---------------------------------------------------------------------------
// Laws
// ---------------------------------------------------------------------------

/// The rotating refresh activates every block once within any `period` frames.
pub proof fn law_rotation_reaches_every_block(map: Seq<u8>, block: int, first: int, period: int)
    requires
        0 <= block < map.len(),
        0 <= first,
        1 <= period,
    ensures
        exists|frame: int| first <= frame < first + period && #[trigger] refreshed(map, frame, period)[block] == 1,
{
    let rest = (block + first) % period;
    let wait = if rest == 0 { 0 } else { period - rest };
    let frame = first + wait;
    vstd::arithmetic::div_mod::lemma_fundamental_div_mod(block + first, period);
    let quotient = (block + first) / period;
    if rest == 0 {
        assert(refreshed(map, frame, period)[block] == 1);
    } else {
        assert(block + frame == period * (quotient + 1)) by (nonlinear_arith)
            requires
                block + first == period * quotient + rest,
                frame == first + period - rest,
        ;
        assert(period * (quotient + 1) == (quotient + 1) * period) by (nonlinear_arith);
        vstd::arithmetic::div_mod::lemma_mod_multiples_basic(quotient + 1, period);
        assert(refreshed(map, frame, period)[block] == 1);
    }
}

/// The warm-up activates all blocks for one second and none after it.
pub proof fn law_warmup_lasts_one_second(
    controller: ControllerModel,
    map: Seq<u8>,
    frame: usize,
    detected: usize,
)
    requires
        controller.strategy == ActiveMapStrategy::Warmup,
    ensures
        frame < controller.fps ==> controller.applied(map, frame, detected).1 == full_map(map.len()),
        frame >= controller.fps ==> controller.applied(map, frame, detected).1 == map,
{
}

/// For how many more frames each block stays active after some maps.
pub open spec fn hold_after(hold: Seq<u8>, maps: Seq<Seq<u8>>, cols: int) -> Seq<u8>
    decreases maps.len(),
{
    if maps.len() == 0 {
        hold
    } else {
        held(hold_after(hold, maps.drop_last(), cols), maps.last(), cols)
    }
}

/// Whether one of the last eight maps has activity within one block of a block.
pub open spec fn recently_near_active(maps: Seq<Seq<u8>>, cols: int, block: int) -> bool {
    exists|t: int|
        0 <= t < maps.len() && maps.len() - HOLD_FRAMES <= t && near_active(#[trigger] maps[t], cols, block)
}

/// The last map with activity within one block of a block, -1 where there is
/// none.
spec fn last_near(maps: Seq<Seq<u8>>, cols: int, block: int) -> int
    decreases maps.len(),
{
    if maps.len() == 0 {
        -1
    } else if near_active(maps.last(), cols, block) {
        maps.len() - 1
    } else {
        last_near(maps.drop_last(), cols, block)
    }
}

proof fn lemma_last_near(maps: Seq<Seq<u8>>, cols: int, block: int)
    ensures
        ({
            let last = last_near(maps, cols, block);
            &&& -1 <= last < maps.len()
            &&& last >= 0 ==> near_active(maps[last], cols, block)
            &&& forall|t: int| last < t < maps.len() ==> !near_active(#[trigger] maps[t], cols, block)
        }),
    decreases maps.len(),
{
    if maps.len() > 0 && !near_active(maps.last(), cols, block) {
        let head = maps.drop_last();
        lemma_last_near(head, cols, block);
        assert forall|t: int| last_near(maps, cols, block) < t < maps.len() implies !near_active(
            #[trigger] maps[t],
            cols,
            block,
        ) by {
            if t < head.len() {
                assert(head[t] == maps[t]);
            }
        }
    }
}

proof fn lemma_hold_counts_down(hold: Seq<u8>, maps: Seq<Seq<u8>>, cols: int, block: int)
    requires
        0 <= block < hold.len(),
        hold[block] == 0,
    ensures
        ({
            let after = hold_after(hold, maps, cols);
            let last = last_near(maps, cols, block);
            let left = last + 1 + HOLD_FRAMES - maps.len();
            &&& after.len() == hold.len()
            &&& after[block] == if last >= 0 && left > 0 {
                left
            } else {
                0
            }
        }),
    decreases maps.len(),
{
    if maps.len() > 0 {
        lemma_hold_counts_down(hold, maps.drop_last(), cols, block);
        lemma_last_near(maps.drop_last(), cols, block);
    }
}

/// Activity is held: with no block held at first, after any maps whatever a block
/// is active if and only if one of the last eight maps has activity in the block
/// or in one that touches it.
pub proof fn law_activity_is_held(hold: Seq<u8>, maps: Seq<Seq<u8>>, cols: int, block: int)
    requires
        0 <= block < hold.len(),
        hold[block] == 0,
    ensures
        held_map(hold_after(hold, maps, cols))[block] == if recently_near_active(maps, cols, block) {
            1u8
        } else {
            0u8
        },
{
    lemma_hold_counts_down(hold, maps, cols, block);
    lemma_last_near(maps, cols, block);
    let last = last_near(maps, cols, block);
    if last >= 0 && maps.len() - HOLD_FRAMES <= last {
        assert(near_active(maps[last], cols, block));
        assert(recently_near_active(maps, cols, block));
    } else if recently_near_active(maps, cols, block) {
        let t = choose|t: int|
            0 <= t < maps.len() && maps.len() - HOLD_FRAMES <= t && near_active(#[trigger] maps[t], cols, block);
        assert(t <= last);
    }
}

/// What a controller is given for a frame.
pub struct MapTurn {
    pub map: Seq<u8>,
    pub frame: usize,
    pub detected: usize,
}

/// The controller after some frames.
pub open spec fn maps_applied(controller: ControllerModel, turns: Seq<MapTurn>) -> ControllerModel
    decreases turns.len(),
{
    if turns.len() == 0 {
        controller
    } else {
        let turn = turns.last();
        maps_applied(controller, turns.drop_last()).applied(turn.map, turn.frame, turn.detected).0
    }
}

/// The maps that a controller is given.
pub open spec fn maps_of(turns: Seq<MapTurn>) -> Seq<Seq<u8>> {
    turns.map_values(|turn: MapTurn| turn.map)
}

/// A controller that holds activity does so frame by frame, and with
/// `HoldExpanded` the map of a frame is that of the blocks that are held.
pub proof fn law_controller_holds_activity(controller: ControllerModel, turns: Seq<MapTurn>)
    requires
        controller.strategy is HoldExpanded || controller.strategy is Recovery,
    ensures
        ({
            let after = maps_applied(controller, turns);
            &&& after.strategy == controller.strategy
            &&& after.cols == controller.cols
            &&& after.hold == hold_after(controller.hold, maps_of(turns), controller.cols as int)
            &&& turns.len() > 0 && controller.strategy is HoldExpanded ==> maps_applied(
                controller,
                turns.drop_last(),
            ).applied(turns.last().map, turns.last().frame, turns.last().detected).1 == held_map(after.hold)
        }),
    decreases turns.len(),
{
    if turns.len() > 0 {
        law_controller_holds_activity(controller, turns.drop_last());
        assert(maps_of(turns).drop_last() =~= maps_of(turns.drop_last()));
    }
}

/// An active block activates itself and the blocks that touch it.
pub proof fn law_activity_spreads(hold: Seq<u8>, map: Seq<u8>, cols: int, block: int, other: int)
    requires
        hold.len() == map.len(),
        0 <= block < map.len(),
        0 <= other < map.len(),
        map[block] != 0,
        touch(other, block, cols),
    ensures
        held_map(held(hold, map, cols))[other] == 1,
{
    assert(near_active(map, cols, other));
}

/// Bursts of full frames are bounded: the frames that remain never exceed half a
/// second or five frames, whichever is more, and outside bursts and the first
/// second only blocks near activity are active.
pub proof fn law_recovery_bursts_are_bounded(
    controller: ControllerModel,
    map: Seq<u8>,
    frame: usize,
    detected: usize,
)
    requires
        controller.wf(),
        controller.strategy == ActiveMapStrategy::Recovery,
        controller.full_active_remaining <= controller.fps / 2 || controller.full_active_remaining <= 5,
    ensures
        ({
            let (next, active) = controller.applied(map, frame, detected);
            &&& next.full_active_remaining < controller.fps / 2 || next.full_active_remaining < 5
            &&& controller.burst(frame, detected, map.len()) == 0 && frame >= controller.fps ==> active
                == held_map(held(controller.hold, map, controller.cols as int))
            &&& controller.burst(frame, detected, map.len()) > 0 ==> active == full_map(map.len())
                && next.full_active_remaining == controller.burst(frame, detected, map.len()) - 1
        }),
{
}

/// With all blocks active the count is that of all blocks.
pub proof fn law_full_map_is_counted(len: nat)
    ensures
        active_count(full_map(len)) == len,
{
    lemma_active_count_all(full_map(len));
}

} // verus!
