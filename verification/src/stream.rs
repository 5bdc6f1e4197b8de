//! What listening to a given stream of finalized blocks ends in.
//!
//! The stream is given as the blocks that the node announces, in the order in which it
//! announces them. The laws below follow a live source through them, and state the
//! series it ends with.

use crate::extract::record_of;
use crate::record::{BlockHash, BlockRecord};
use crate::source::{lemma_run_concat, EventView, Mode, Phase, SourceState};
use vstd::prelude::*;

verus! {

/// A block as the stream announces it, with the content of the timestamp cell in its
/// state.
pub struct AnnouncedBlock {
    pub hash: BlockHash,
    pub height: u64,
    /// The number of entries in the body.
    pub body_len: u64,
    pub cell: Option<Seq<u8>>,
}

/// The two answers that belong to an announced block: the block itself, and the
/// content of its timestamp cell.
pub open spec fn answers_for(block: AnnouncedBlock) -> Seq<EventView> {
    seq![
        EventView::Finalized { hash: block.hash, height: block.height, body_len: block.body_len },
        EventView::Storage { value: block.cell },
    ]
}

/// The answers for each of `blocks` in turn.
pub open spec fn stream_answers(blocks: Seq<AnnouncedBlock>) -> Seq<EventView>
    decreases blocks.len(),
{
    if blocks.len() == 0 {
        Seq::empty()
    } else {
        answers_for(blocks[0]) + stream_answers(blocks.drop_first())
    }
}

/// The records of `blocks`, in their order.
pub open spec fn announced(blocks: Seq<AnnouncedBlock>) -> Seq<BlockRecord> {
    Seq::new(
        blocks.len(),
        |j: int| record_of(blocks[j].height, blocks[j].hash, blocks[j].body_len, blocks[j].cell),
    )
}

/// Running over the answers for one announced block is two steps.
proof fn lemma_run_block(state: SourceState, block: AnnouncedBlock)
    ensures
        state.run(answers_for(block)) == state.step(
            EventView::Finalized {
                hash: block.hash,
                height: block.height,
                body_len: block.body_len,
            },
        ).step(EventView::Storage { value: block.cell }),
{
    let events = answers_for(block);
    assert(events.drop_first().drop_first().len() == 0);
    reveal_with_fuel(SourceState::run, 3);
}

/// The answers for a list of blocks with one more block at its end.
proof fn lemma_stream_answers_push(blocks: Seq<AnnouncedBlock>, last: AnnouncedBlock)
    ensures
        stream_answers(blocks.push(last)) == stream_answers(blocks) + answers_for(last),
    decreases blocks.len(),
{
    if blocks.len() == 0 {
        let one = blocks.push(last);
        assert(one.drop_first() =~= blocks);
        assert(one[0] == last);
        assert(stream_answers(one) == answers_for(last) + stream_answers(blocks));
        assert(answers_for(last) + stream_answers(blocks) =~= stream_answers(blocks)
            + answers_for(last));
    } else {
        assert(blocks.push(last).drop_first() =~= blocks.drop_first().push(last));
        lemma_stream_answers_push(blocks.drop_first(), last);
        assert(answers_for(blocks[0]) + (stream_answers(blocks.drop_first()) + answers_for(last))
            =~= (answers_for(blocks[0]) + stream_answers(blocks.drop_first())) + answers_for(
            last,
        ));
    }
}

/// A source that listens, and has room for more than `blocks`, takes the record of
/// each and goes on listening.
proof fn lemma_listen(state: SourceState, blocks: Seq<AnnouncedBlock>)
    requires
        state.mode is Live,
        state.phase is Listening,
        state.records.len() + blocks.len() < state.window,
    ensures
        state.run(stream_answers(blocks)) == (SourceState {
            records: state.records + announced(blocks),
            ..state
        }),
    decreases blocks.len(),
{
    if blocks.len() == 0 {
        assert(state.records + announced(blocks) =~= state.records);
    } else {
        let block = blocks[0];
        let rest = blocks.drop_first();
        let record = record_of(block.height, block.hash, block.body_len, block.cell);
        let after = state.run(answers_for(block));
        lemma_run_block(state, block);
        lemma_run_concat(state, answers_for(block), stream_answers(rest));
        assert(after == SourceState { records: state.records.push(record), ..state });
        lemma_listen(after, rest);
        assert(after.records + announced(rest) =~= state.records + announced(blocks));
    }
}

/// A stream that ends early gives a shorter series, not a failure.
///
/// The node announces `blocks`, fewer than the window asks for, and then closes the
/// stream. The source finishes with exactly one record for each of `blocks`, in the
/// order of their arrival.
pub proof fn lemma_closed_stream(window: nat, blocks: Seq<AnnouncedBlock>)
    requires
        blocks.len() < window,
    ensures
        ({
            let events = seq![EventView::Subscribed] + stream_answers(blocks)
                + seq![EventView::StreamClosed];
            let end = SourceState::start(Mode::Live, window).run(events);
            &&& end.phase is Finished
            &&& end.records.len() == blocks.len()
            &&& end.records == announced(blocks)
        }),
{
    let start = SourceState::start(Mode::Live, window);
    let opening = seq![EventView::Subscribed];
    let closing = seq![EventView::StreamClosed];
    let opened = start.run(opening);
    assert(opened == start.goto(Phase::Listening)) by {
        assert(opening.drop_first().len() == 0);
        reveal_with_fuel(SourceState::run, 2);
    }
    lemma_listen(opened, blocks);
    let heard = opened.run(stream_answers(blocks));
    assert(heard.run(closing) == heard.finish()) by {
        assert(closing.drop_first().len() == 0);
        reveal_with_fuel(SourceState::run, 2);
    }
    lemma_run_concat(start, opening, stream_answers(blocks));
    lemma_run_concat(start, opening + stream_answers(blocks), closing);
    assert(opened.records + announced(blocks) =~= announced(blocks));
}

/// A stream at least as long as the window fills it.
///
/// The node announces `blocks`, as many as the window asks for. The source finishes
/// after the last of them, with one record for each, in the order of their arrival.
pub proof fn lemma_full_stream(window: nat, blocks: Seq<AnnouncedBlock>)
    requires
        blocks.len() == window,
        window >= 1,
    ensures
        ({
            let events = seq![EventView::Subscribed] + stream_answers(blocks);
            let end = SourceState::start(Mode::Live, window).run(events);
            &&& end.phase is Finished
            &&& end.records.len() == window
            &&& end.records == announced(blocks)
        }),
{
    let start = SourceState::start(Mode::Live, window);
    let opening = seq![EventView::Subscribed];
    let opened = start.run(opening);
    assert(opened == start.goto(Phase::Listening)) by {
        assert(opening.drop_first().len() == 0);
        reveal_with_fuel(SourceState::run, 2);
    }
    let n = blocks.len() as int;
    let front = blocks.take(n - 1);
    let last = blocks[n - 1];
    assert(front.push(last) =~= blocks);
    lemma_stream_answers_push(front, last);
    lemma_listen(opened, front);
    let heard = opened.run(stream_answers(front));
    lemma_run_block(heard, last);
    lemma_run_concat(opened, stream_answers(front), answers_for(last));
    lemma_run_concat(start, opening, stream_answers(blocks));
    let record = record_of(last.height, last.hash, last.body_len, last.cell);
    assert(heard.records.push(record) =~= announced(blocks));
}

} // verus!
