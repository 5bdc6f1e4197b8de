//! The block source: which node call comes next, and what its answer does.
//!
//! A source gathers up to `window` block records, either by walking back from the
//! finalized head or by listening to the stream of newly finalized blocks. It never
//! talks to a node itself. It names the next call as an [`Action`]; whoever drives it
//! makes that call and hands the answer back as an [`Event`]. One call is in flight at
//! any time.

use crate::extract::{extract, record_of};
use crate::record::{ascending_heights, BlockHash, BlockRecord};
use vstd::prelude::*;

verus! {

/// How the blocks of a window are found.
#[derive(Clone, Copy, Debug, PartialEq, Eq, Structural)]
pub enum Mode {
    /// Walk back from the finalized head, one height at a time.
    Historical,
    /// Take finalized blocks as the node announces them.
    Live,
}

/// Why a source gave up.
#[derive(Clone, Copy, Debug, PartialEq, Eq, Structural)]
pub enum SourceError {
    /// The node could not be reached, or a call to it failed in transport.
    Connection,
    /// The node does not know the finalized head it announced.
    NotFound,
    /// An answer came that does not belong to the call in flight.
    Protocol,
}

/// What the driver of a source has to do next.
#[derive(Clone, Copy, Debug, PartialEq, Eq)]
pub enum Action {
    /// Ask for the hash of the finalized head.
    GetFinalizedHead,
    /// Ask for the header of the block with this hash.
    GetHeader { hash: BlockHash },
    /// Ask for the hash of the block at this height.
    GetBlockHash { height: u64 },
    /// Ask for the body of the block with this hash.
    GetBlock { hash: BlockHash },
    /// Read the timestamp cell in the state of the block with this hash.
    GetStorage { at: BlockHash },
    /// Open the stream of finalized blocks.
    Subscribe,
    /// Wait for the next block of the stream.
    AwaitFinalized,
    /// Nothing: the series is complete.
    Done,
    /// Nothing: the run is over without a series.
    Abort { error: SourceError },
}

/// The answer to an [`Action`].
#[derive(Debug, PartialEq, Eq)]
pub enum Event {
    /// The hash of the finalized head.
    FinalizedHead { hash: BlockHash },
    /// The height that a header gives.
    Header { height: u64 },
    /// The hash of the block at the height asked for.
    BlockHashFound { hash: BlockHash },
    /// The number of entries in the body of a block.
    Block { body_len: u64 },
    /// The content of the timestamp cell, if the state holds one.
    Storage { value: Option<Vec<u8>> },
    /// The stream of finalized blocks is open.
    Subscribed,
    /// The stream gave a block.
    Finalized { hash: BlockHash, height: u64, body_len: u64 },
    /// The node has no block for the height or hash asked for.
    NotFound,
    /// The stream has ended.
    StreamClosed,
    /// The call failed in transport.
    TransportError,
}

/// An [`Event`] as a mathematical value.
pub enum EventView {
    FinalizedHead { hash: BlockHash },
    Header { height: u64 },
    BlockHashFound { hash: BlockHash },
    Block { body_len: u64 },
    Storage { value: Option<Seq<u8>> },
    Subscribed,
    Finalized { hash: BlockHash, height: u64, body_len: u64 },
    NotFound,
    StreamClosed,
    TransportError,
}

impl View for Event {
    type V = EventView;

    open spec fn view(&self) -> EventView {
        match *self {
            Event::FinalizedHead { hash } => EventView::FinalizedHead { hash },
            Event::Header { height } => EventView::Header { height },
            Event::BlockHashFound { hash } => EventView::BlockHashFound { hash },
            Event::Block { body_len } => EventView::Block { body_len },
            Event::Storage { value } => EventView::Storage {
                value: match value {
                    Some(bytes) => Some(bytes@),
                    None => None,
                },
            },
            Event::Subscribed => EventView::Subscribed,
            Event::Finalized { hash, height, body_len } => EventView::Finalized {
                hash,
                height,
                body_len,
            },
            Event::NotFound => EventView::NotFound,
            Event::StreamClosed => EventView::StreamClosed,
            Event::TransportError => EventView::TransportError,
        }
    }
}

/// Where a source stands: the call in flight with what is known of the block it is
/// about, or the way the source ended.
#[derive(Clone, Copy, Debug, PartialEq, Eq)]
pub enum Phase {
    /// Waiting for the hash of the finalized head.
    ResolvingHead,
    /// Waiting for the header of the finalized head.
    ReadingHeader { hash: BlockHash },
    /// Waiting for the hash of the block at `height`.
    Locating { height: u64 },
    /// Waiting for the body of the block at `height`.
    Fetching { height: u64, hash: BlockHash },
    /// Waiting for the timestamp cell of a block whose body has `tx_count` entries.
    Timing { height: u64, hash: BlockHash, tx_count: u64 },
    /// Waiting for the stream of finalized blocks to open.
    Subscribing,
    /// Waiting for the next block of the stream.
    Listening,
    /// Ended with a series.
    Finished,
    /// Ended without one.
    Failed { error: SourceError },
}

impl Phase {
    /// The call that this phase waits on.
    pub open spec fn action(self) -> Action {
        match self {
            Phase::ResolvingHead => Action::GetFinalizedHead,
            Phase::ReadingHeader { hash } => Action::GetHeader { hash },
            Phase::Locating { height } => Action::GetBlockHash { height },
            Phase::Fetching { hash, .. } => Action::GetBlock { hash },
            Phase::Timing { hash, .. } => Action::GetStorage { at: hash },
            Phase::Subscribing => Action::Subscribe,
            Phase::Listening => Action::AwaitFinalized,
            Phase::Finished => Action::Done,
            Phase::Failed { error } => Action::Abort { error },
        }
    }
}

/// A block source as a mathematical value.
pub struct SourceState {
    pub mode: Mode,
    /// The number of records asked for.
    pub window: nat,
    pub phase: Phase,
    /// The height of the finalized head, once a historical source has learnt it.
    pub head: Option<u64>,
    /// The records gathered so far: newest first while a historical source walks back,
    /// in ascending order of height once it has finished; in order of arrival in live
    /// mode.
    pub records: Seq<BlockRecord>,
}

impl SourceState {
    /// A source before its first call. A window of zero needs no call at all.
    pub open spec fn start(mode: Mode, window: nat) -> SourceState {
        SourceState {
            mode,
            window,
            phase: if window == 0 {
                Phase::Finished
            } else {
                match mode {
                    Mode::Historical => Phase::ResolvingHead,
                    Mode::Live => Phase::Subscribing,
                }
            },
            head: None,
            records: Seq::empty(),
        }
    }

    /// The same source in another phase.
    pub open spec fn goto(self, phase: Phase) -> SourceState {
        SourceState { phase, ..self }
    }

    /// The source after it gave up.
    pub open spec fn fail(self, error: SourceError) -> SourceState {
        self.goto(Phase::Failed { error })
    }

    /// The source after it completed its series. What a historical source gathered
    /// newest first is turned into ascending order of height.
    pub open spec fn finish(self) -> SourceState {
        SourceState {
            phase: Phase::Finished,
            records: match self.mode {
                Mode::Historical => self.records.reverse(),
                Mode::Live => self.records,
            },
            ..self
        }
    }

    /// The source after it took one more record: finished when the window is full or,
    /// walking back, when the record is that of height zero; else on to the next block.
    pub open spec fn collect(self, record: BlockRecord) -> SourceState {
        let grown = SourceState { records: self.records.push(record), ..self };
        if grown.records.len() >= self.window {
            grown.finish()
        } else {
            match self.mode {
                Mode::Live => grown.goto(Phase::Listening),
                Mode::Historical => if record.height == 0 {
                    grown.finish()
                } else {
                    grown.goto(Phase::Locating { height: (record.height - 1) as u64 })
                },
            }
        }
    }

    /// The call that the source waits on.
    pub open spec fn action(self) -> Action {
        self.phase.action()
    }

    /// The source after `event`.
    ///
    /// A source that has ended stays as it is. A transport failure ends any other
    /// source. A block that the node does not have ends a walk back with the records
    /// gathered so far; so does the end of the stream in live mode. An answer that does
    /// not belong to the call in flight ends the source with
    /// [`SourceError::Protocol`].
    pub open spec fn step(self, event: EventView) -> SourceState {
        match self.phase {
            Phase::Finished | Phase::Failed { .. } => self,
            _ => if event is TransportError {
                self.fail(SourceError::Connection)
            } else {
                match (self.phase, event) {
                    (Phase::ResolvingHead, EventView::FinalizedHead { hash }) => self.goto(
                        Phase::ReadingHeader { hash },
                    ),
                    (Phase::ResolvingHead, EventView::NotFound) => self.fail(SourceError::NotFound),
                    (Phase::ReadingHeader { .. }, EventView::Header { height }) => SourceState {
                        head: Some(height),
                        phase: Phase::Locating { height },
                        ..self
                    },
                    (Phase::ReadingHeader { .. }, EventView::NotFound) => self.fail(
                        SourceError::NotFound,
                    ),
                    (Phase::Locating { height }, EventView::BlockHashFound { hash }) => self.goto(
                        Phase::Fetching { height, hash },
                    ),
                    (Phase::Locating { .. }, EventView::NotFound) => self.finish(),
                    (Phase::Fetching { height, hash }, EventView::Block { body_len }) => self.goto(
                        Phase::Timing { height, hash, tx_count: body_len },
                    ),
                    (Phase::Fetching { .. }, EventView::NotFound) => self.finish(),
                    (
                        Phase::Timing { height, hash, tx_count },
                        EventView::Storage { value },
                    ) => self.collect(record_of(height, hash, tx_count, value)),
                    (Phase::Subscribing, EventView::Subscribed) => self.goto(Phase::Listening),
                    (
                        Phase::Listening,
                        EventView::Finalized { hash, height, body_len },
                    ) => self.goto(Phase::Timing { height, hash, tx_count: body_len }),
                    (Phase::Listening, EventView::StreamClosed) => self.finish(),
                    _ => self.fail(SourceError::Protocol),
                }
            },
        }
    }

    /// The source after each of `events` in turn.
    pub open spec fn run(self, events: Seq<EventView>) -> SourceState
        decreases events.len(),
    {
        if events.len() == 0 {
            self
        } else {
            self.step(events[0]).run(events.drop_first())
        }
    }

    /// The source has ended, with a series or without.
    pub open spec fn ended(self) -> bool {
        self.phase is Finished || self.phase is Failed
    }

    /// The most calls that the source can still ask for: three for each block that a
    /// walk back still has room for, two for each block that a live source still has
    /// room for, and those that open the run.
    pub open spec fn calls_left(self) -> nat {
        let room = (self.window - self.records.len()) as nat;
        match self.phase {
            Phase::ResolvingHead => 2 + 3 * self.window,
            Phase::ReadingHeader { .. } => 1 + 3 * self.window,
            Phase::Locating { .. } => 3 * room,
            Phase::Fetching { .. } => (3 * room - 1) as nat,
            Phase::Timing { .. } => match self.mode {
                Mode::Historical => (3 * room - 2) as nat,
                Mode::Live => (2 * room - 1) as nat,
            },
            Phase::Subscribing => 1 + 2 * self.window,
            Phase::Listening => 2 * room,
            Phase::Finished | Phase::Failed { .. } => 0,
        }
    }

    /// How many reads of the timestamp cell get their answer among `events`.
    pub open spec fn reads(self, events: Seq<EventView>) -> nat
        decreases events.len(),
    {
        if events.len() == 0 {
            0
        } else {
            let now: nat = if self.phase is Timing {
                1
            } else {
                0
            };
            now + self.step(events[0]).reads(events.drop_first())
        }
    }

    /// The records are those of the heights from `head` downwards, newest first, and
    /// `height` is the next one down.
    pub open spec fn walking_back(self, height: u64) -> bool {
        &&& self.mode is Historical
        &&& self.head is Some
        &&& self.records.len() < self.window
        &&& height + self.records.len() == self.head->0
        &&& forall|i: int|
            0 <= i < self.records.len() ==> (#[trigger] self.records[i]).height == self.head->0
                - i
    }

    /// What holds of every source that was started and then stepped.
    pub open spec fn wf(self) -> bool {
        &&& self.records.len() <= self.window
        &&& match self.phase {
            Phase::ResolvingHead | Phase::ReadingHeader { .. } => {
                &&& self.mode is Historical
                &&& self.head is None
                &&& self.records.len() == 0
                &&& self.window > 0
            },
            Phase::Locating { height } | Phase::Fetching { height, .. } => self.walking_back(
                height,
            ),
            Phase::Timing { height, .. } => {
                &&& self.records.len() < self.window
                &&& self.mode is Historical ==> self.walking_back(height)
            },
            Phase::Subscribing => {
                &&& self.mode is Live
                &&& self.records.len() == 0
                &&& self.window > 0
            },
            Phase::Listening => {
                &&& self.mode is Live
                &&& self.records.len() < self.window
            },
            Phase::Finished => self.mode is Historical ==> match self.head {
                None => self.records.len() == 0,
                Some(head) => consecutive_up_to(self.records, head),
            },
            Phase::Failed { .. } => true,
        }
    }
}

/// `records` are those of consecutive heights, in ascending order, the last one at
/// `head`.
pub open spec fn consecutive_up_to(records: Seq<BlockRecord>, head: u64) -> bool {
    &&& records.len() <= head + 1
    &&& forall|i: int|
        0 <= i < records.len() ==> (#[trigger] records[i]).height == head + 1 - records.len() + i
}

/// A source of block records. See [`SourceState`] for what it holds.
pub struct BlockSource {
    mode: Mode,
    window: usize,
    phase: Phase,
    head: Option<u64>,
    records: Vec<BlockRecord>,
}

impl View for BlockSource {
    type V = SourceState;

    closed spec fn view(&self) -> SourceState {
        SourceState {
            mode: self.mode,
            window: self.window as nat,
            phase: self.phase,
            head: self.head,
            records: self.records@,
        }
    }
}

impl BlockSource {
    #[verifier::type_invariant]
    spec fn inv(self) -> bool {
        self@.wf()
    }

    /// A source for `window` records. With a window of zero it is finished at once,
    /// and no call is made.
    pub fn new(mode: Mode, window: usize) -> (source: Self)
        ensures
            source@ == SourceState::start(mode, window as nat),
            source@.wf(),
    {
        let phase: Phase = if window == 0 {
            Phase::Finished
        } else {
            match mode {
                Mode::Historical => Phase::ResolvingHead,
                Mode::Live => Phase::Subscribing,
            }
        };
        BlockSource { mode, window, phase, head: None, records: Vec::new() }
    }

    /// What the driver has to do next.
    pub fn action(&self) -> (action: Action)
        ensures
            action == self@.action(),
    {
        match self.phase {
            Phase::ResolvingHead => Action::GetFinalizedHead,
            Phase::ReadingHeader { hash } => Action::GetHeader { hash },
            Phase::Locating { height } => Action::GetBlockHash { height },
            Phase::Fetching { hash, .. } => Action::GetBlock { hash },
            Phase::Timing { hash, .. } => Action::GetStorage { at: hash },
            Phase::Subscribing => Action::Subscribe,
            Phase::Listening => Action::AwaitFinalized,
            Phase::Finished => Action::Done,
            Phase::Failed { error } => Action::Abort { error },
        }
    }

    /// Takes the answer to the call in flight and says what to do next.
    pub fn step(self, event: Event) -> (next: (Self, Action))
        ensures
            next.0@ == self@.step(event@),
            next.1 == next.0@.action(),
            next.0@.wf(),
    {
        proof {
            use_type_invariant(&self);
            lemma_step_preserves_wf(self@, event@);
        }
        let source: BlockSource = match self.phase {
            Phase::Finished => self,
            Phase::Failed { .. } => self,
            _ => match event {
                Event::TransportError => self.fail(SourceError::Connection),
                _ => match self.phase {
                    Phase::ResolvingHead => self.on_head(event),
                    Phase::ReadingHeader { .. } => self.on_header(event),
                    Phase::Locating { height } => self.on_block_hash(height, event),
                    Phase::Fetching { height, hash } => self.on_block(height, hash, event),
                    Phase::Timing { height, hash, tx_count } => self.on_storage(
                        height,
                        hash,
                        tx_count,
                        event,
                    ),
                    Phase::Subscribing => self.on_subscribed(event),
                    _ => self.on_stream(event),
                },
            },
        };
        let action: Action = source.action();
        (source, action)
    }

    fn goto(self, phase: Phase) -> (next: Self)
        requires
            self@.goto(phase).wf(),
        ensures
            next@ == self@.goto(phase),
    {
        BlockSource {
            mode: self.mode,
            window: self.window,
            phase,
            head: self.head,
            records: self.records,
        }
    }

    fn fail(self, error: SourceError) -> (next: Self)
        ensures
            next@ == self@.fail(error),
    {
        proof {
            use_type_invariant(&self);
        }
        self.goto(Phase::Failed { error })
    }

    fn finish(self) -> (next: Self)
        requires
            self@.finish().wf(),
        ensures
            next@ == self@.finish(),
    {
        let mode: Mode = self.mode;
        BlockSource {
            mode,
            window: self.window,
            phase: Phase::Finished,
            head: self.head,
            records: in_series_order(mode, self.records),
        }
    }

    fn collect(self, record: BlockRecord) -> (next: Self)
        requires
            self@.collect(record).wf(),
        ensures
            next@ == self@.collect(record),
    {
        let mode: Mode = self.mode;
        let window: usize = self.window;
        let head: Option<u64> = self.head;
        let mut records: Vec<BlockRecord> = self.records;
        records.push(record);
        if records.len() >= window {
            BlockSource {
                mode,
                window,
                phase: Phase::Finished,
                head,
                records: in_series_order(mode, records),
            }
        } else {
            match mode {
                Mode::Live => BlockSource { mode, window, phase: Phase::Listening, head, records },
                Mode::Historical => if record.height == 0 {
                    BlockSource {
                        mode,
                        window,
                        phase: Phase::Finished,
                        head,
                        records: in_series_order(mode, records),
                    }
                } else {
                    BlockSource {
                        mode,
                        window,
                        phase: Phase::Locating { height: record.height - 1 },
                        head,
                        records,
                    }
                },
            }
        }
    }

    fn on_head(self, event: Event) -> (next: Self)
        requires
            self@.phase is ResolvingHead,
            !(event@ is TransportError),
            self@.step(event@).wf(),
        ensures
            next@ == self@.step(event@),
    {
        match event {
            Event::FinalizedHead { hash } => self.goto(Phase::ReadingHeader { hash }),
            Event::NotFound => self.fail(SourceError::NotFound),
            _ => self.fail(SourceError::Protocol),
        }
    }

    fn on_header(self, event: Event) -> (next: Self)
        requires
            self@.phase is ReadingHeader,
            !(event@ is TransportError),
            self@.step(event@).wf(),
        ensures
            next@ == self@.step(event@),
    {
        match event {
            Event::Header { height } => BlockSource {
                mode: self.mode,
                window: self.window,
                phase: Phase::Locating { height },
                head: Some(height),
                records: self.records,
            },
            Event::NotFound => self.fail(SourceError::NotFound),
            _ => self.fail(SourceError::Protocol),
        }
    }

    fn on_block_hash(self, height: u64, event: Event) -> (next: Self)
        requires
            self@.phase == (Phase::Locating { height }),
            !(event@ is TransportError),
            self@.step(event@).wf(),
        ensures
            next@ == self@.step(event@),
    {
        match event {
            Event::BlockHashFound { hash } => self.goto(Phase::Fetching { height, hash }),
            Event::NotFound => self.finish(),
            _ => self.fail(SourceError::Protocol),
        }
    }

    fn on_block(self, height: u64, hash: BlockHash, event: Event) -> (next: Self)
        requires
            self@.phase == (Phase::Fetching { height, hash }),
            !(event@ is TransportError),
            self@.step(event@).wf(),
        ensures
            next@ == self@.step(event@),
    {
        match event {
            Event::Block { body_len } => self.goto(
                Phase::Timing { height, hash, tx_count: body_len },
            ),
            Event::NotFound => self.finish(),
            _ => self.fail(SourceError::Protocol),
        }
    }

    fn on_storage(self, height: u64, hash: BlockHash, tx_count: u64, event: Event) -> (next: Self)
        requires
            self@.phase == (Phase::Timing { height, hash, tx_count }),
            !(event@ is TransportError),
            self@.step(event@).wf(),
        ensures
            next@ == self@.step(event@),
    {
        match event {
            Event::Storage { value } => {
                let record: BlockRecord = extract(height, hash, tx_count, value.as_ref());
                self.collect(record)
            },
            _ => self.fail(SourceError::Protocol),
        }
    }

    fn on_subscribed(self, event: Event) -> (next: Self)
        requires
            self@.phase is Subscribing,
            !(event@ is TransportError),
            self@.step(event@).wf(),
        ensures
            next@ == self@.step(event@),
    {
        match event {
            Event::Subscribed => self.goto(Phase::Listening),
            _ => self.fail(SourceError::Protocol),
        }
    }

    fn on_stream(self, event: Event) -> (next: Self)
        requires
            self@.phase is Listening,
            !(event@ is TransportError),
            self@.step(event@).wf(),
        ensures
            next@ == self@.step(event@),
    {
        match event {
            Event::Finalized { hash, height, body_len } => self.goto(
                Phase::Timing { height, hash, tx_count: body_len },
            ),
            Event::StreamClosed => self.finish(),
            _ => self.fail(SourceError::Protocol),
        }
    }

    /// The mode the source was made with.
    pub fn mode(&self) -> (mode: Mode)
        ensures
            mode == self@.mode,
    {
        self.mode
    }

    /// The number of records the source was asked for.
    pub fn window(&self) -> (window: usize)
        ensures
            window == self@.window,
    {
        self.window
    }

    /// The height of the finalized head, once a historical source has learnt it.
    pub fn head(&self) -> (head: Option<u64>)
        ensures
            head == self@.head,
    {
        self.head
    }

    /// Whether the source has completed its series.
    pub fn is_finished(&self) -> (finished: bool)
        ensures
            finished == (self@.phase is Finished),
    {
        match self.phase {
            Phase::Finished => true,
            _ => false,
        }
    }

    /// The records gathered so far; the series, once the source has finished.
    ///
    /// The series of a historical source holds at most `window` records, of
    /// consecutive heights that end at the finalized head, in ascending order.
    pub fn into_series(self) -> (series: Vec<BlockRecord>)
        ensures
            series@ == self@.records,
            self@.wf(),
            series@.len() <= self@.window,
            self@.mode is Historical && self@.phase is Finished ==> {
                &&& ascending_heights(series@)
                &&& self@.head is None ==> series@.len() == 0
                &&& self@.head matches Some(head) ==> {
                    &&& consecutive_up_to(series@, head)
                    &&& forall|i: int|
                        0 <= i < series@.len() ==> head - self@.window < (
                        #[trigger] series@[i]).height <= head
                }
            },
    {
        proof {
            use_type_invariant(&self);
            if self@.mode is Historical && self@.phase is Finished {
                lemma_finished_window(self@);
            }
        }
        self.records
    }
}

/// The records in the order of a series: those of a walk back are turned round.
fn in_series_order(mode: Mode, records: Vec<BlockRecord>) -> (ordered: Vec<BlockRecord>)
    ensures
        ordered@ == match mode {
            Mode::Historical => records@.reverse(),
            Mode::Live => records@,
        },
{
    match mode {
        Mode::Live => records,
        Mode::Historical => {
            let mut ordered: Vec<BlockRecord> = Vec::new();
            let mut i: usize = records.len();
            while i > 0
                invariant
                    i <= records.len(),
                    ordered.len() == records.len() - i,
                    forall|k: int|
                        0 <= k < ordered.len() ==> #[trigger] ordered[k] == records[records.len()
                            - 1 - k],
                decreases i,
            {
                i = i - 1;
                ordered.push(records[i]);
            }
            proof {
                assert(ordered@ =~= records@.reverse());
            }
            ordered
        },
    }
}

/// A source that has just been started is well formed.
pub proof fn lemma_start_wf(mode: Mode, window: nat)
    ensures
        SourceState::start(mode, window).wf(),
{
}

/// No event takes a well-formed source to one that is not.
pub proof fn lemma_step_preserves_wf(state: SourceState, event: EventView)
    requires
        state.wf(),
    ensures
        state.step(event).wf(),
{
    match state.phase {
        Phase::Locating { .. } | Phase::Fetching { .. } | Phase::Listening => {
            if event is NotFound || event is StreamClosed {
                lemma_finish_wf(state);
            }
        },
        Phase::Timing { height, hash, tx_count } => {
            if let EventView::Storage { value } = event {
                let record = record_of(height, hash, tx_count, value);
                let grown = SourceState { records: state.records.push(record), ..state };
                if state.mode is Historical {
                    assert forall|i: int| 0 <= i < grown.records.len() implies (
                    #[trigger] grown.records[i]).height == grown.head->0 - i by {
                        if i < state.records.len() {
                            assert(grown.records[i] == state.records[i]);
                        }
                    }
                    if grown.records.len() >= state.window || height == 0 {
                        lemma_reverse_consecutive(grown.records, grown.head->0);
                    }
                }
            }
        },
        _ => {},
    }
}

/// Finishing a well-formed source that waits for a block or for the stream leaves a
/// well-formed source.
proof fn lemma_finish_wf(state: SourceState)
    requires
        state.wf(),
        state.phase is Locating || state.phase is Fetching || state.phase is Listening,
    ensures
        state.finish().wf(),
{
    if state.mode is Historical {
        lemma_reverse_consecutive(state.records, state.head->0);
    }
}

/// Records of the heights from `head` downwards, turned round, are records of
/// consecutive heights up to `head`.
pub proof fn lemma_reverse_consecutive(records: Seq<BlockRecord>, head: u64)
    requires
        records.len() <= head + 1,
        forall|i: int| 0 <= i < records.len() ==> (#[trigger] records[i]).height == head - i,
    ensures
        consecutive_up_to(records.reverse(), head),
        ascending_heights(records.reverse()),
{
    let turned = records.reverse();
    assert forall|i: int| 0 <= i < turned.len() implies (#[trigger] turned[i]).height == head + 1
        - turned.len() + i by {
        assert(turned[i] == records[records.len() - 1 - i]);
    }
}

/// Every source that was started and then fed any events at all is well formed.
pub proof fn lemma_run_wf(state: SourceState, events: Seq<EventView>)
    requires
        state.wf(),
    ensures
        state.run(events).wf(),
    decreases events.len(),
{
    if events.len() > 0 {
        lemma_step_preserves_wf(state, events[0]);
        lemma_run_wf(state.step(events[0]), events.drop_first());
    }
}

/// Every answer brings a source nearer to its end: a source that has not ended can
/// ask for fewer calls after an event than before it.
pub proof fn lemma_step_uses_a_call(state: SourceState, event: EventView)
    requires
        state.wf(),
        !state.ended(),
    ensures
        state.step(event).calls_left() < state.calls_left(),
{
}

/// A source that has ended stays as it is, whatever comes.
pub proof fn lemma_ended_stays(state: SourceState, events: Seq<EventView>)
    requires
        state.ended(),
    ensures
        state.run(events) == state,
    decreases events.len(),
{
    if events.len() > 0 {
        lemma_ended_stays(state, events.drop_first());
    }
}

/// A source has ended once it has had as many answers as it could still ask for
/// calls, whatever the answers were.
pub proof fn lemma_run_ends(state: SourceState, events: Seq<EventView>)
    requires
        state.wf(),
        events.len() >= state.calls_left(),
    ensures
        state.run(events).ended(),
    decreases events.len(),
{
    if state.ended() {
        lemma_ended_stays(state, events);
    } else {
        lemma_step_preserves_wf(state, events[0]);
        lemma_step_uses_a_call(state, events[0]);
        lemma_run_ends(state.step(events[0]), events.drop_first());
    }
}

/// The number of calls in a run is linear in the window: whatever the node answers, a
/// walk back over a window of `n` blocks has ended after `3 * n + 2` answers, and a
/// live source after `2 * n + 1`.
pub proof fn lemma_calls_bounded(mode: Mode, window: nat, events: Seq<EventView>)
    requires
        events.len() >= match mode {
            Mode::Historical => 3 * window + 2,
            Mode::Live => 2 * window + 1,
        },
    ensures
        SourceState::start(mode, window).run(events).ended(),
{
    lemma_run_ends(SourceState::start(mode, window), events);
}

/// Each record costs one read of the timestamp cell, and no read is made for anything
/// else: a run that does not fail gathers exactly as many records as reads were
/// answered in it.
pub proof fn lemma_one_read_per_record(state: SourceState, events: Seq<EventView>)
    requires
        !(state.run(events).phase is Failed),
    ensures
        state.run(events).records.len() == state.records.len() + state.reads(events),
    decreases events.len(),
{
    if events.len() > 0 {
        let next = state.step(events[0]);
        if next.phase is Failed {
            lemma_ended_stays(next, events.drop_first());
        }
        lemma_one_read_per_record(next, events.drop_first());
    }
}

/// Running over two lists of events, one after the other, is running over both joined.
pub proof fn lemma_run_concat(state: SourceState, first: Seq<EventView>, second: Seq<EventView>)
    ensures
        state.run(first + second) == state.run(first).run(second),
    decreases first.len(),
{
    if first.len() == 0 {
        assert(first + second =~= second);
    } else {
        assert((first + second).drop_first() =~= first.drop_first() + second);
        lemma_run_concat(state.step(first[0]), first.drop_first(), second);
    }
}

/// The series of a finished historical source: at most `window` records, in strictly
/// ascending order of height, each height in the closed range from
/// `head - window + 1` to `head`.
pub proof fn lemma_finished_window(state: SourceState)
    requires
        state.wf(),
        state.mode is Historical,
        state.phase is Finished,
    ensures
        state.records.len() <= state.window,
        ascending_heights(state.records),
        state.head is None ==> state.records.len() == 0,
        state.head matches Some(head) ==> {
            &&& consecutive_up_to(state.records, head)
            &&& forall|i: int|
                0 <= i < state.records.len() ==> head - state.window < (
                #[trigger] state.records[i]).height <= head
        },
{
}

} // verus!
