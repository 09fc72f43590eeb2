//! Which blocks of a frame are active.
use vstd::prelude::*;

use crate::screen::active_map::{
    full_map, held, held_map, near_active, touch, ActiveMapStrategy, ControllerModel,
};

verus! {

/// The blocks near a block are the nine around it, as far as the map has them:
/// those whose row and column are at most one away.
pub proof fn law_near_means_around(map: Seq<u8>, cols: int, rows: int, row: int, col: int)
    requires
        map.len() == cols * rows,
        0 <= row < rows,
        0 <= col < cols,
    ensures
        near_active(map, cols, row * cols + col) <==> exists|near_row: int, near_col: int|
            0 <= near_row < rows && 0 <= near_col < cols && row - 1 <= near_row <= row + 1 && col - 1
                <= near_col <= col + 1 && #[trigger] map[near_row * cols + near_col] != 0,
{
    let block = row * cols + col;
    vstd::arithmetic::div_mod::lemma_fundamental_div_mod_converse(block, cols, row, col);
    if near_active(map, cols, block) {
        let other = choose|other: int|
            0 <= other < map.len() && #[trigger] map[other] != 0 && touch(block, other, cols);
        let near_row = other / cols;
        let near_col = other % cols;
        vstd::arithmetic::div_mod::lemma_fundamental_div_mod(other, cols);
        assert(near_row * cols == cols * near_row) by (nonlinear_arith);
        assert(0 <= near_row < rows) by (nonlinear_arith)
            requires
                other == cols * near_row + near_col,
                0 <= near_col < cols,
                0 <= other < cols * rows,
        ;
        assert(map[near_row * cols + near_col] != 0);
    }
    if exists|near_row: int, near_col: int|
        0 <= near_row < rows && 0 <= near_col < cols && row - 1 <= near_row <= row + 1 && col - 1 <= near_col
            <= col + 1 && #[trigger] map[near_row * cols + near_col] != 0 {
        let (near_row, near_col) = choose|near_row: int, near_col: int|
            0 <= near_row < rows && 0 <= near_col < cols && row - 1 <= near_row <= row + 1 && col - 1
                <= near_col <= col + 1 && #[trigger] map[near_row * cols + near_col] != 0;
        let other = near_row * cols + near_col;
        vstd::arithmetic::div_mod::lemma_fundamental_div_mod_converse(other, cols, near_row, near_col);
        assert(0 <= other < cols * rows) by (nonlinear_arith)
            requires
                other == near_row * cols + near_col,
                0 <= near_row < rows,
                0 <= near_col < cols,
        ;
        assert(map[other] != 0 && touch(block, other, cols));
    }
}

/// A block near activity is active for this frame and seven more; any other
/// block has one frame fewer left, and is inactive once none is left.
pub proof fn law_block_is_held_eight_frames(hold: Seq<u8>, map: Seq<u8>, cols: int, block: int)
    requires
        0 <= block < hold.len(),
    ensures
        ({
            let after = held(hold, map, cols);
            &&& after.len() == hold.len()
            &&& near_active(map, cols, block) ==> after[block] == 8
            &&& !near_active(map, cols, block) && hold[block] > 0 ==> after[block] == hold[block] - 1
            &&& !near_active(map, cols, block) && hold[block] == 0 ==> after[block] == 0
            &&& held_map(after)[block] == 1 <==> after[block] > 0
            &&& held_map(after)[block] == 0 <==> after[block] == 0
        }),
{
}

/// The naive strategy leaves the map of the changed blocks as it is.
pub proof fn law_naive_map_stays(
    controller: ControllerModel,
    map: Seq<u8>,
    frame: usize,
    detected: usize,
)
    requires
        controller.strategy == ActiveMapStrategy::Naive,
    ensures
        controller.applied(map, frame, detected) == (controller, map),
{
}

/// The rotating refresh adds the blocks whose number and the frame's make up
/// whole seconds, and changes no other block.
pub proof fn law_refresh_adds_its_blocks(
    controller: ControllerModel,
    map: Seq<u8>,
    frame: usize,
    detected: usize,
    block: int,
    seconds: int,
    rest: int,
)
    requires
        controller.strategy == ActiveMapStrategy::RotatingRefresh,
        0 <= block < map.len(),
        0 <= rest < controller.fps,
        block + frame == seconds * controller.fps + rest,
    ensures
        ({
            let (next, active) = controller.applied(map, frame, detected);
            &&& next == controller
            &&& active.len() == map.len()
            &&& active[block] == if rest == 0 {
                1
            } else {
                map[block]
            }
        }),
{
    vstd::arithmetic::div_mod::lemma_fundamental_div_mod_converse(
        block + frame,
        controller.fps as int,
        seconds,
        rest,
    );
}

/// The warm-up fills the map in the first second and leaves it alone later.
pub proof fn law_warmup_fills_the_first_second(
    controller: ControllerModel,
    map: Seq<u8>,
    frame: usize,
    detected: usize,
    block: int,
)
    requires
        controller.strategy == ActiveMapStrategy::Warmup,
        0 <= block < map.len(),
    ensures
        controller.applied(map, frame, detected).1.len() == map.len(),
        controller.applied(map, frame, detected).1[block] == if frame < controller.fps {
            1
        } else {
            map[block]
        },
        controller.applied(map, frame, detected).0 == controller,
{
}

/// The recovery strategy shows all blocks in the first second; for half a second
/// from a frame on in which three fifths of the blocks changed; for five frames
/// every five seconds; and while such a burst lasts. In all other frames it
/// shows the blocks that are held. What is held goes on through bursts.
pub proof fn law_recovery_shows_all_blocks_when_due(
    controller: ControllerModel,
    map: Seq<u8>,
    frame: usize,
    detected: usize,
)
    requires
        controller.wf(),
        controller.strategy == ActiveMapStrategy::Recovery,
        detected * 100 <= usize::MAX,
        map.len() * 60 <= usize::MAX,
        controller.fps * 5 <= usize::MAX,
    ensures
        ({
            let (next, active) = controller.applied(map, frame, detected);
            let changed = frame >= controller.fps && 100 * detected >= 60 * map.len();
            let periodic = frame > 0 && frame as int % (5 * controller.fps) == 0;
            let going = controller.full_active_remaining > 0;
            let half = controller.fps as int / 2;
            let hold = held(controller.hold, map, controller.cols as int);
            &&& next.hold == hold
            &&& active == if frame < controller.fps || going || periodic || (changed && half > 0) {
                Seq::new(map.len(), |block: int| 1u8)
            } else {
                held_map(hold)
            }
            &&& changed && half > 0 ==> next.full_active_remaining >= half - 1
            &&& periodic ==> next.full_active_remaining >= 4
            &&& going ==> next.full_active_remaining >= controller.full_active_remaining - 1
            &&& next.full_active_remaining == controller.full_active_remaining - 1
                || next.full_active_remaining == 0 || (changed && next.full_active_remaining == half - 1)
                || (periodic && next.full_active_remaining == 4)
            &&& !changed && !periodic && going ==> next.full_active_remaining
                == controller.full_active_remaining - 1
            &&& next.strategy == controller.strategy
            &&& next.fps == controller.fps
        }),
{
    assert(full_map(map.len()) =~= Seq::new(map.len(), |block: int| 1u8));
}

} // verus!
