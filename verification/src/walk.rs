//! What a walk back over a given chain ends in.
//!
//! The chain is given as the blocks that the node has from the finalized head
//! downwards. The laws below follow a historical source through the answers that such
//! a node gives, and state the series it ends with.

use crate::extract::record_of;
use crate::record::{ascending_heights, BlockHash, BlockRecord};
use crate::source::{
    consecutive_up_to, lemma_reverse_consecutive, lemma_run_concat, EventView, Mode, Phase,
    SourceState,
};
use vstd::prelude::*;

verus! {

/// What a node holds of one block.
pub struct ChainBlock {
    pub hash: BlockHash,
    /// The number of entries in the body.
    pub body_len: u64,
    /// The content of the timestamp cell in the state of the block.
    pub cell: Option<Seq<u8>>,
}

/// The three answers that a node gives for a block it has: its hash, its body, the
/// content of its timestamp cell.
pub open spec fn answers_for(block: ChainBlock) -> Seq<EventView> {
    seq![
        EventView::BlockHashFound { hash: block.hash },
        EventView::Block { body_len: block.body_len },
        EventView::Storage { value: block.cell },
    ]
}

/// The answers for each of `blocks` in turn.
pub open spec fn walk_answers(blocks: Seq<ChainBlock>) -> Seq<EventView>
    decreases blocks.len(),
{
    if blocks.len() == 0 {
        Seq::empty()
    } else {
        answers_for(blocks[0]) + walk_answers(blocks.drop_first())
    }
}

/// The records of `blocks`, which lie at the heights from `top` downwards.
pub open spec fn walked(top: u64, blocks: Seq<ChainBlock>) -> Seq<BlockRecord> {
    Seq::new(
        blocks.len(),
        |j: int| record_of((top - j) as u64, blocks[j].hash, blocks[j].body_len, blocks[j].cell),
    )
}

/// The answers that open a walk back: the hash of the finalized head and its height.
pub open spec fn head_answers(head_hash: BlockHash, head: u64) -> Seq<EventView> {
    seq![EventView::FinalizedHead { hash: head_hash }, EventView::Header { height: head }]
}

/// Running over the answers for one block is three steps.
proof fn lemma_run_block(state: SourceState, block: ChainBlock)
    ensures
        state.run(answers_for(block)) == state.step(
            EventView::BlockHashFound { hash: block.hash },
        ).step(EventView::Block { body_len: block.body_len }).step(
            EventView::Storage { value: block.cell },
        ),
{
    let events = answers_for(block);
    let second = events.drop_first();
    let third = second.drop_first();
    assert(third.drop_first().len() == 0);
    reveal_with_fuel(SourceState::run, 4);
}

/// A source that is about to look up `height`, and has room for more than `blocks`,
/// takes the record of each block that the node has and is then about to look up the
/// height below them.
proof fn lemma_walk(state: SourceState, height: u64, blocks: Seq<ChainBlock>)
    requires
        state.mode is Historical,
        state.phase == (Phase::Locating { height }),
        state.records.len() + blocks.len() < state.window,
        blocks.len() <= height,
    ensures
        state.run(walk_answers(blocks)) == (SourceState {
            phase: Phase::Locating { height: (height - blocks.len()) as u64 },
            records: state.records + walked(height, blocks),
            ..state
        }),
    decreases blocks.len(),
{
    if blocks.len() == 0 {
        assert(state.records + walked(height, blocks) =~= state.records);
    } else {
        let block = blocks[0];
        let rest = blocks.drop_first();
        let record = record_of(height, block.hash, block.body_len, block.cell);
        let after = state.run(answers_for(block));
        lemma_run_block(state, block);
        lemma_run_concat(state, answers_for(block), walk_answers(rest));
        assert(after == SourceState {
            phase: Phase::Locating { height: (height - 1) as u64 },
            records: state.records.push(record),
            ..state
        });
        lemma_walk(after, (height - 1) as u64, rest);
        assert(after.records + walked((height - 1) as u64, rest) =~= state.records + walked(
            height,
            blocks,
        ));
    }
}

/// A source that is about to look up `height` and meets `blocks`, the last of which
/// fills the window or lies at height zero, finishes with the record of each.
proof fn lemma_walk_to_end(state: SourceState, height: u64, blocks: Seq<ChainBlock>)
    requires
        state.mode is Historical,
        state.phase == (Phase::Locating { height }),
        blocks.len() >= 1,
        state.records.len() + blocks.len() <= state.window,
        blocks.len() <= height + 1,
        state.records.len() + blocks.len() == state.window || blocks.len() == height + 1,
    ensures
        state.run(walk_answers(blocks)) == (SourceState {
            phase: Phase::Finished,
            records: (state.records + walked(height, blocks)).reverse(),
            ..state
        }),
{
    let n = blocks.len() as int;
    let front = blocks.take(n - 1);
    let last = blocks[n - 1];
    lemma_walk_answers_push(front, last);
    assert(front.push(last) =~= blocks);
    lemma_run_concat(state, walk_answers(front), answers_for(last));
    lemma_walk(state, height, front);
    let before = state.run(walk_answers(front));
    lemma_run_block(before, last);
    let low = (height - (n - 1)) as u64;
    let record = record_of(low, last.hash, last.body_len, last.cell);
    assert(before.records.push(record) =~= state.records + walked(height, blocks));
}

/// The answers for a list of blocks with one more block at its end.
proof fn lemma_walk_answers_push(blocks: Seq<ChainBlock>, last: ChainBlock)
    ensures
        walk_answers(blocks.push(last)) == walk_answers(blocks) + answers_for(last),
    decreases blocks.len(),
{
    if blocks.len() == 0 {
        let one = blocks.push(last);
        assert(one.drop_first() =~= blocks);
        assert(one[0] == last);
        assert(walk_answers(one) == answers_for(last) + walk_answers(blocks));
        assert(answers_for(last) + walk_answers(blocks) =~= walk_answers(blocks) + answers_for(
            last,
        ));
    } else {
        assert(blocks.push(last).drop_first() =~= blocks.drop_first().push(last));
        lemma_walk_answers_push(blocks.drop_first(), last);
        assert(answers_for(blocks[0]) + (walk_answers(blocks.drop_first()) + answers_for(last))
            =~= (answers_for(blocks[0]) + walk_answers(blocks.drop_first())) + answers_for(last));
    }
}

/// A historical source that has learnt the height of the finalized head is about to
/// look up the block at that height.
proof fn lemma_opened(window: nat, head_hash: BlockHash, head: u64)
    requires
        window > 0,
    ensures
        SourceState::start(Mode::Historical, window).run(head_answers(head_hash, head)) == (
        SourceState {
            phase: Phase::Locating { height: head },
            head: Some(head),
            ..SourceState::start(Mode::Historical, window)
        }),
{
    let events = head_answers(head_hash, head);
    assert(events.drop_first().drop_first().len() == 0);
    reveal_with_fuel(SourceState::run, 3);
}

/// A chain shorter than the window gives a shorter series, not a failure.
///
/// The node has `blocks` at the heights from `head` downwards, fewer than the window
/// asks for, and has no block at the height below them. The source then finishes with
/// exactly one record for each of `blocks`, in ascending order of height.
pub proof fn lemma_partial_window(
    window: nat,
    head_hash: BlockHash,
    head: u64,
    blocks: Seq<ChainBlock>,
)
    requires
        blocks.len() < window,
        blocks.len() <= head,
    ensures
        ({
            let events = head_answers(head_hash, head) + walk_answers(blocks)
                + seq![EventView::NotFound];
            let end = SourceState::start(Mode::Historical, window).run(events);
            &&& end.phase is Finished
            &&& end.records.len() == blocks.len()
            &&& end.records == walked(head, blocks).reverse()
            &&& consecutive_up_to(end.records, head)
            &&& ascending_heights(end.records)
        }),
{
    let start = SourceState::start(Mode::Historical, window);
    let opening = head_answers(head_hash, head);
    let closing = seq![EventView::NotFound];
    let opened = start.run(opening);
    lemma_opened(window, head_hash, head);
    lemma_walk(opened, head, blocks);
    let arrived = opened.run(walk_answers(blocks));
    assert(arrived.run(closing) == arrived.finish()) by {
        assert(closing.drop_first().len() == 0);
        reveal_with_fuel(SourceState::run, 2);
    }
    lemma_run_concat(start, opening, walk_answers(blocks));
    lemma_run_concat(start, opening + walk_answers(blocks), closing);
    assert(opened.records + walked(head, blocks) =~= walked(head, blocks));
    lemma_reverse_consecutive(walked(head, blocks), head);
}

/// A chain at least as long as the window fills it.
///
/// The node has `blocks` at the heights from `head` downwards, as many as the window
/// asks for. The source then finishes after the last of them, with one record for
/// each, in ascending order of height.
pub proof fn lemma_full_window(
    window: nat,
    head_hash: BlockHash,
    head: u64,
    blocks: Seq<ChainBlock>,
)
    requires
        window >= 1,
        blocks.len() == window,
        blocks.len() <= head + 1,
    ensures
        ({
            let events = head_answers(head_hash, head) + walk_answers(blocks);
            let end = SourceState::start(Mode::Historical, window).run(events);
            &&& end.phase is Finished
            &&& end.records.len() == window
            &&& end.records == walked(head, blocks).reverse()
            &&& consecutive_up_to(end.records, head)
            &&& ascending_heights(end.records)
        }),
{
    let start = SourceState::start(Mode::Historical, window);
    let opening = head_answers(head_hash, head);
    lemma_opened(window, head_hash, head);
    lemma_walk_to_end(start.run(opening), head, blocks);
    lemma_run_concat(start, opening, walk_answers(blocks));
    assert(start.run(opening).records + walked(head, blocks) =~= walked(head, blocks));
    lemma_reverse_consecutive(walked(head, blocks), head);
}

/// A chain that ends at height zero within the window gives all of its blocks.
///
/// The node has `blocks` at the heights from `head` down to zero, no more than the
/// window asks for. The source then finishes after the block at height zero, without
/// looking below it, with one record for each block, in ascending order of height.
pub proof fn lemma_whole_chain(
    window: nat,
    head_hash: BlockHash,
    head: u64,
    blocks: Seq<ChainBlock>,
)
    requires
        blocks.len() == head + 1,
        blocks.len() <= window,
    ensures
        ({
            let events = head_answers(head_hash, head) + walk_answers(blocks);
            let end = SourceState::start(Mode::Historical, window).run(events);
            &&& end.phase is Finished
            &&& end.records.len() == head + 1
            &&& end.records == walked(head, blocks).reverse()
            &&& consecutive_up_to(end.records, head)
            &&& ascending_heights(end.records)
        }),
{
    let start = SourceState::start(Mode::Historical, window);
    let opening = head_answers(head_hash, head);
    lemma_opened(window, head_hash, head);
    lemma_walk_to_end(start.run(opening), head, blocks);
    lemma_run_concat(start, opening, walk_answers(blocks));
    assert(start.run(opening).records + walked(head, blocks) =~= walked(head, blocks));
    lemma_reverse_consecutive(walked(head, blocks), head);
}

} // verus!
