//! The parser of one entity: it keeps what the entity holds, takes the diff of
//! each tick through every registered motion, and queues the moves whose
//! motions were completed.

use vstd::prelude::*;
use crate::clock::{clock_millis, clock_start};
use crate::compiler::{compiled, CompileError};
use crate::direction::LRDirection;
use crate::helper_types::{Diff, DiffView, Frame, FrameView};
use crate::motion_input::{MotionInput, MotionView};
use crate::move_id::MoveId;
use crate::parser_head::Timing;
use crate::registry::{no_motions, Registry};
use crate::stick_position::StickPosition;

verus! {

/// The diff as the entity sees it: the stick move mirrored by the facing.
pub open spec fn relative_diff(diff: DiffView, facing: LRDirection) -> DiffView {
    DiffView {
        stick_move: match diff.stick_move {
            Some(stick) => Some(facing.mirrored(stick)),
            None => None,
        },
        ..diff
    }
}

/// The definitions of a list with their moves, as mathematical values.
pub open spec fn definition_views(inputs: Seq<(MoveId, &str)>) -> Seq<(MoveId, Seq<char>)> {
    inputs.map_values(|entry: (MoveId, &str)| (entry.0, entry.1@))
}

/// The motion that a compiled definition starts as: no attempt is alive.
pub open spec fn fresh_motion(requirements: Seq<crate::requirement::RequirementView>) -> MotionView {
    MotionView { requirements, heads: Seq::empty() }
}

/// The registry that a list of definitions gives: each move stands for the
/// motion of its definition, the last one where a move is listed twice. The
/// first definition that does not compile gives its error.
pub open spec fn loaded(inputs: Seq<(MoveId, Seq<char>)>) -> Result<
    Map<MoveId, MotionView>,
    CompileError,
>
    decreases inputs.len(),
{
    if inputs.len() == 0 {
        Ok(no_motions())
    } else {
        match loaded(inputs.drop_last()) {
            Err(e) => Err(e),
            Ok(registered) => match compiled(inputs.last().1) {
                Err(e) => Err(e),
                Ok(requirements) => Ok(
                    registered.insert(inputs.last().0, fresh_motion(requirements)),
                ),
            },
        }
    }
}

/// A parser as a mathematical value.
pub struct ParserView {
    /// The moves recognized since the queue was last drained, oldest first.
    pub events: Seq<MoveId>,
    /// The motions listened for, by their moves.
    pub registered: Map<MoveId, MotionView>,
    /// What the entity holds, in absolute directions.
    pub head: FrameView,
    /// The stick position as the entity sees it.
    pub relative_stick: StickPosition,
    /// The windows of the recognizer.
    pub timing: Timing,
}

impl ParserView {
    /// Every registered motion is well formed.
    pub open spec fn wf(self) -> bool {
        forall|id: MoveId| self.registered.dom().contains(id) ==> (#[trigger] self.registered[id]).wf()
    }

    /// A parser that listens for the motions given and has seen nothing.
    pub open spec fn listening(registered: Map<MoveId, MotionView>, timing: Timing) -> ParserView {
        ParserView {
            events: Seq::empty(),
            registered,
            head: FrameView::neutral(),
            relative_stick: StickPosition::Neutral,
            timing,
        }
    }

    /// What the entity holds, as the entity sees it.
    pub open spec fn relative_frame(self) -> FrameView {
        FrameView { stick_position: self.relative_stick, pressed: self.head.pressed }
    }

    /// The parser after it has taken in the diff of a tick and before the
    /// motions have seen it.
    pub open spec fn with_frame(self, diff: DiffView, facing: LRDirection) -> ParserView {
        ParserView {
            head: self.head.apply(diff),
            relative_stick: facing.mirrored(self.head.apply(diff).stick_position),
            ..self
        }
    }

    /// The motion of a move after the tick, before it is cleared.
    pub open spec fn motion_after(self, id: MoveId, diff: DiffView, now: u64) -> MotionView {
        self.registered[id].advance(diff, self.relative_frame(), now, self.timing)
    }

    /// Whether the move is recognized in this tick.
    pub open spec fn fires(self, id: MoveId, diff: DiffView, now: u64) -> bool {
        self.registered.dom().contains(id) && self.motion_after(id, diff, now).is_done()
    }

    /// The motion of a move as the tick leaves it: cleared if it was
    /// completed, so that it is recognized once.
    pub open spec fn settled(self, id: MoveId, diff: DiffView, now: u64) -> MotionView {
        if self.motion_after(id, diff, now).is_done() {
            self.motion_after(id, diff, now).cleared()
        } else {
            self.motion_after(id, diff, now)
        }
    }

    /// The registered motions as the tick leaves them.
    pub open spec fn registered_after(self, diff: DiffView, now: u64) -> Map<MoveId, MotionView> {
        Map::new(
            |id: MoveId| self.registered.dom().contains(id),
            |id: MoveId| self.settled(id, diff, now),
        )
    }

    /// Whether `next` is this parser after the motions have seen the relative
    /// diff of a tick: every motion is taken through the tick, and each move
    /// whose motion was completed joins the queue once, behind the moves that
    /// wait there. The order among the moves of one tick is left open.
    pub open spec fn parsed(self, diff: DiffView, now: u64, next: ParserView) -> bool {
        &&& next.registered == self.registered_after(diff, now)
        &&& next.head == self.head
        &&& next.relative_stick == self.relative_stick
        &&& next.timing == self.timing
        &&& next.events.len() >= self.events.len()
        &&& next.events.take(self.events.len() as int) == self.events
        &&& next.events.skip(self.events.len() as int).no_duplicates()
        &&& forall|id: MoveId|
            next.events.skip(self.events.len() as int).contains(id) <==> self.fires(
                id,
                diff,
                now,
            )
    }

    /// Whether `next` is this parser after the tick at `now` in which `diff`
    /// happened to an entity that faces `facing`.
    pub open spec fn ticked(
        self,
        diff: DiffView,
        facing: LRDirection,
        now: u64,
        next: ParserView,
    ) -> bool {
        self.with_frame(diff, facing).parsed(relative_diff(diff, facing), now, next)
    }

    /// The moves among `ids` that are recognized in this tick, in the order of `ids`.
    pub open spec fn fired_among(self, ids: Seq<MoveId>, diff: DiffView, now: u64) -> Seq<MoveId>
        decreases ids.len(),
    {
        if ids.len() == 0 {
            Seq::empty()
        } else {
            let earlier = self.fired_among(ids.drop_last(), diff, now);
            if self.fires(ids.last(), diff, now) {
                earlier.push(ids.last())
            } else {
                earlier
            }
        }
    }

    /// The registered motions when the moves in `seen` have been through the tick.
    pub open spec fn registered_partly(self, seen: Seq<MoveId>, diff: DiffView, now: u64) -> Map<
        MoveId,
        MotionView,
    > {
        Map::new(
            |id: MoveId| self.registered.dom().contains(id),
            |id: MoveId|
                if seen.contains(id) {
                    self.settled(id, diff, now)
                } else {
                    self.registered[id]
                },
        )
    }
}

/// A move is among those recognized exactly if it is listed and fires.
pub proof fn lemma_fired_member(
    view: ParserView,
    ids: Seq<MoveId>,
    diff: DiffView,
    now: u64,
    id: MoveId,
)
    ensures
        view.fired_among(ids, diff, now).contains(id) <==> ids.contains(id) && view.fires(
            id,
            diff,
            now,
        ),
    decreases ids.len(),
{
    let fired = view.fired_among(ids, diff, now);
    if ids.len() > 0 {
        let earlier_ids = ids.drop_last();
        let earlier = view.fired_among(earlier_ids, diff, now);
        lemma_fired_member(view, earlier_ids, diff, now, id);
        if fired.contains(id) {
            let j = choose|j: int| 0 <= j < fired.len() && fired[j] == id;
            if j < earlier.len() {
                assert(earlier[j] == id);
                assert(earlier.contains(id));
                let k = choose|k: int| 0 <= k < earlier_ids.len() && earlier_ids[k] == id;
                assert(ids[k] == id);
            } else {
                assert(ids[ids.len() - 1] == id);
            }
        }
        if ids.contains(id) && view.fires(id, diff, now) {
            let k = choose|k: int| 0 <= k < ids.len() && ids[k] == id;
            if k < earlier_ids.len() {
                assert(earlier_ids[k] == id);
                assert(earlier_ids.contains(id));
                let j = choose|j: int| 0 <= j < earlier.len() && earlier[j] == id;
                assert(fired[j] == id);
            } else {
                assert(fired[fired.len() - 1] == id);
            }
        }
    }
}

/// No move is recognized twice in a tick.
pub proof fn lemma_fired_once(view: ParserView, ids: Seq<MoveId>, diff: DiffView, now: u64)
    requires
        ids.no_duplicates(),
    ensures
        view.fired_among(ids, diff, now).no_duplicates(),
    decreases ids.len(),
{
    let fired = view.fired_among(ids, diff, now);
    if ids.len() > 0 {
        let earlier_ids = ids.drop_last();
        let earlier = view.fired_among(earlier_ids, diff, now);
        lemma_fired_once(view, earlier_ids, diff, now);
        if view.fires(ids.last(), diff, now) {
            lemma_fired_member(view, earlier_ids, diff, now, ids.last());
            if earlier_ids.contains(ids.last()) {
                let k = choose|k: int| 0 <= k < earlier_ids.len() && earlier_ids[k] == ids.last();
                assert(ids[k] == ids[ids.len() - 1]);
            }
            assert(!earlier.contains(ids.last()));
            assert forall|a: int, b: int|
                0 <= a < fired.len() && 0 <= b < fired.len() && a != b implies fired[a]
                != fired[b] by {
                if a < earlier.len() && b < earlier.len() {
                    assert(earlier[a] != earlier[b]);
                } else if a < earlier.len() {
                    assert(earlier.contains(earlier[a]));
                } else {
                    assert(earlier.contains(earlier[b]));
                }
            }
        }
    }
}

/// Once a prefix of a list of definitions has failed to load, the whole list
/// fails with the same error.
pub proof fn lemma_load_error_stays(inputs: Seq<(MoveId, Seq<char>)>, n: int)
    requires
        0 <= n <= inputs.len(),
        loaded(inputs.take(n)) is Err,
    ensures
        loaded(inputs) == loaded(inputs.take(n)),
    decreases inputs.len() - n,
{
    if n == inputs.len() {
        assert(inputs.take(n) == inputs);
    } else {
        let longer = inputs.take(n + 1);
        assert(longer.drop_last() == inputs.take(n));
        lemma_load_error_stays(inputs, n + 1);
    }
}

/// The parser of one entity.
#[derive(Debug)]
pub struct InputParser {
    events: Vec<MoveId>,
    registered_inputs: Registry,
    head: Frame,
    relative_stick: StickPosition,
    timing: Timing,
    clock: bevy::utils::Instant,
}

impl View for InputParser {
    type V = ParserView;

    closed spec fn view(&self) -> ParserView {
        ParserView {
            events: self.events@,
            registered: self.registered_inputs@,
            head: self.head@,
            relative_stick: self.relative_stick,
            timing: self.timing,
        }
    }
}

impl InputParser {
    /// A parser that listens for nothing yet. Its clock starts now.
    pub fn new(timing: Timing) -> (parser: InputParser)
        ensures
            parser@ == ParserView::listening(no_motions(), timing),
            parser@.wf(),
    {
        InputParser {
            events: Vec::new(),
            registered_inputs: Registry::new(),
            head: Frame::new(),
            relative_stick: StickPosition::Neutral,
            timing,
            clock: clock_start(),
        }
    }

    /// A parser that listens for the motions of the definitions given, or the
    /// error of the first definition that does not compile.
    pub fn load(inputs: &Vec<(MoveId, &str)>, timing: Timing) -> (r: Result<
        InputParser,
        CompileError,
    >)
        ensures
            r matches Ok(parser) ==> loaded(definition_views(inputs@)) is Ok && parser@
                == ParserView::listening(loaded(definition_views(inputs@))->Ok_0, timing)
                && parser@.wf(),
            r matches Err(e) ==> loaded(definition_views(inputs@)) is Err && loaded(
                definition_views(inputs@),
            )->Err_0 == e,
    {
        let ghost views = definition_views(inputs@);
        let mut parser = InputParser::new(timing);
        let mut i: usize = 0;
        proof {
            assert(views.take(0).len() == 0);
        }
        while i < inputs.len()
            invariant
                i <= inputs.len(),
                views == definition_views(inputs@),
                loaded(views.take(i as int)) is Ok,
                parser@ == ParserView::listening(loaded(views.take(i as int))->Ok_0, timing),
                parser@.wf(),
            decreases inputs.len() - i,
        {
            proof {
                let next = views.take(i as int + 1);
                assert(next.drop_last() == views.take(i as int));
                assert(next.last() == views[i as int]);
                assert(views[i as int] == (inputs@[i as int].0, inputs@[i as int].1@));
            }
            let id = inputs[i].0;
            match MotionInput::compile(inputs[i].1) {
                Ok(motion) => {
                    parser.register_input(id, motion);
                },
                Err(e) => {
                    proof {
                        lemma_load_error_stays(views, i as int + 1);
                    }
                    return Err(e);
                },
            }
            i += 1;
        }
        proof {
            assert(views.take(i as int) == views);
        }
        Ok(parser)
    }

    /// Lets the move stand for the motion, in place of any that it stood for.
    pub fn register_input(&mut self, id: MoveId, input: MotionInput)
        requires
            old(self)@.wf(),
            input@.wf(),
        ensures
            final(self)@ == (ParserView {
                registered: old(self)@.registered.insert(id, input@),
                ..old(self)@
            }),
            final(self)@.wf(),
    {
        self.registered_inputs.insert(id, input);
    }

    /// The stick position in absolute directions.
    pub fn get_absolute_stick_position(&self) -> (p: StickPosition)
        ensures
            p == self@.head.stick_position,
    {
        self.head.stick_position
    }

    /// The stick position as the entity sees it.
    pub fn get_relative_stick_position(&self) -> (p: StickPosition)
        ensures
            p == self@.relative_stick,
    {
        self.relative_stick
    }

    /// The windows that the parser recognizes with.
    pub fn timing(&self) -> (t: Timing)
        ensures
            t == self@.timing,
    {
        self.timing
    }

    /// The moves that wait in the queue, oldest first.
    pub fn events(&self) -> (r: &Vec<MoveId>)
        ensures
            r@ == self@.events,
    {
        &self.events
    }

    /// Hands out the moves that wait in the queue, oldest first, and empties it.
    pub fn drain_events(&mut self) -> (drained: Vec<MoveId>)
        ensures
            drained@ == old(self)@.events,
            final(self)@ == (ParserView { events: Seq::empty(), ..old(self)@ }),
    {
        let mut drained: Vec<MoveId> = Vec::new();
        let mut i: usize = 0;
        while i < self.events.len()
            invariant
                i <= self.events.len(),
                self@ == old(self)@,
                drained@ == self.events@.take(i as int),
            decreases self.events.len() - i,
        {
            drained.push(self.events[i]);
            proof {
                assert(drained@ =~= self.events@.take(i as int + 1));
            }
            i += 1;
        }
        proof {
            assert(self.events@.take(i as int) == self.events@);
        }
        self.events.clear();
        proof {
            assert(self.events@ =~= Seq::<MoveId>::empty());
        }
        drained
    }

    /// Whether the entity holds nothing: the stick is neutral and no button is down.
    pub fn clear_head(&self) -> (r: bool)
        ensures
            r == self@.head.is_neutral(),
    {
        self.head.is_neutral()
    }

    /// Takes the parser through a tick that the clock stamps at the moment of
    /// the call. What holds after it holds for some stamp.
    pub fn add_frame(&mut self, diff: Diff, facing: &LRDirection)
        requires
            old(self)@.wf(),
        ensures
            exists|now: u64| old(self)@.ticked(diff@, *facing, now, final(self)@),
            final(self)@.wf(),
    {
        let now = clock_millis(&self.clock);
        self.add_frame_at(diff, facing, now);
        proof {
            assert(old(self)@.ticked(diff@, *facing, now, self@));
        }
    }

    /// Takes the parser through the tick at `now`, in milliseconds of any
    /// monotonic clock: the diff goes into what is held, and every registered
    /// motion sees it as an entity that faces `facing` does.
    pub fn add_frame_at(&mut self, diff: Diff, facing: &LRDirection, now: u64)
        requires
            old(self)@.wf(),
        ensures
            old(self)@.ticked(diff@, *facing, now, final(self)@),
            final(self)@.wf(),
    {
        let relative = Diff {
            stick_move: match diff.stick_move {
                Some(stick) => Some(facing.mirror_stick(stick)),
                None => None,
            },
            pressed: diff.pressed.clone(),
            released: diff.released.clone(),
        };
        self.head.apply(diff);
        self.relative_stick = facing.mirror_stick(self.head.stick_position);
        proof {
            assert(relative@ == relative_diff(diff@, *facing));
            assert(self@ == old(self)@.with_frame(diff@, *facing));
        }
        self.parse_inputs(&relative, now);
    }

    /// Takes every registered motion through the tick and queues the moves
    /// whose motions were completed.
    fn parse_inputs(&mut self, diff: &Diff, now: u64)
        requires
            old(self)@.wf(),
        ensures
            old(self)@.parsed(diff@, now, final(self)@),
            final(self)@.wf(),
    {
        let frame = Frame {
            stick_position: self.relative_stick,
            pressed: self.head.pressed.clone(),
        };
        let ids = self.registered_inputs.ids();
        let ghost base = self@;
        let mut i: usize = 0;
        proof {
            assert(ids@.take(0) =~= Seq::<MoveId>::empty());
            assert(self.registered_inputs@ =~= base.registered_partly(ids@.take(0), diff@, now));
            assert(self.events@ =~= base.events + base.fired_among(ids@.take(0), diff@, now));
        }
        while i < ids.len()
            invariant
                i <= ids.len(),
                base == old(self)@,
                base.wf(),
                frame@ == base.relative_frame(),
                ids@.no_duplicates(),
                forall|id: MoveId| ids@.contains(id) <==> base.registered.dom().contains(id),
                self.head@ == base.head,
                self.relative_stick == base.relative_stick,
                self.timing == base.timing,
                self.registered_inputs@ == base.registered_partly(
                    ids@.take(i as int),
                    diff@,
                    now,
                ),
                self.events@ == base.events + base.fired_among(ids@.take(i as int), diff@, now),
                self@.wf(),
            decreases ids.len() - i,
        {
            let id = ids[i];
            let ghost seen = ids@.take(i as int);
            let ghost seen_next = ids@.take(i as int + 1);
            let ghost before = self.registered_inputs@;
            proof {
                assert(seen_next.drop_last() == seen);
                assert(seen_next.last() == id);
                assert(ids@.contains(id));
                assert(!seen.contains(id)) by {
                    if seen.contains(id) {
                        let k = choose|k: int| 0 <= k < seen.len() && seen[k] == id;
                        assert(ids@[k] == ids@[i as int]);
                    }
                }
                assert(before[id] == base.registered[id]);
                assert(before.dom().contains(id));
            }
            let taken = self.registered_inputs.remove(id);
            if let Some(mut input) = taken {
                proof {
                    assert(input@ == base.registered[id]);
                    assert(input@.wf());
                }
                let timing = self.timing;
                input.advance(diff, &frame, now, &timing);
                if input.is_done() {
                    input.clear();
                    self.events.push(id);
                }
                proof {
                    assert(input@ == base.settled(id, diff@, now));
                    assert(input@.wf());
                }
                self.registered_inputs.insert(id, input);
                proof {
                    assert forall|k: MoveId| seen_next.contains(k) <==> (seen.contains(k) || k
                        == id) by {
                        if seen.contains(k) {
                            let j = choose|j: int| 0 <= j < seen.len() && seen[j] == k;
                            assert(seen_next[j] == k);
                        }
                        if seen_next.contains(k) && k != id {
                            let j = choose|j: int| 0 <= j < seen_next.len() && seen_next[j] == k;
                            assert(seen[j] == k);
                        }
                        assert(seen_next[i as int] == id);
                    }
                    assert(self.registered_inputs@ =~= base.registered_partly(
                        seen_next,
                        diff@,
                        now,
                    ));
                    assert(self.events@ =~= base.events + base.fired_among(
                        seen_next,
                        diff@,
                        now,
                    ));
                    assert forall|k: MoveId| self@.registered.dom().contains(k) implies (
                    #[trigger] self@.registered[k]).wf() by {
                        if k != id {
                            assert(self@.registered[k] == before[k]);
                        }
                    }
                }
            }
            i += 1;
        }
        proof {
            assert(ids@.take(i as int) == ids@);
            lemma_fired_once(base, ids@, diff@, now);
            let fired = base.fired_among(ids@, diff@, now);
            assert forall|id: MoveId| fired.contains(id) <==> base.fires(id, diff@, now) by {
                lemma_fired_member(base, ids@, diff@, now, id);
            }
            assert(self@.events.take(base.events.len() as int) =~= base.events);
            assert(self@.events.skip(base.events.len() as int) =~= fired);
            assert(self@.registered =~= base.registered_after(diff@, now));
        }
    }
}

impl Default for InputParser {
    fn default() -> (parser: InputParser)
        ensures
            parser@ == ParserView::listening(no_motions(), Timing::standard()),
            parser@.wf(),
    {
        InputParser::new(Timing::default())
    }
}

/// After a tick no registered motion is done: a motion that was completed in
/// the tick has been cleared, so that its move is recognized once. The same
/// moves are registered as before.
pub proof fn lemma_completed_motions_are_cleared(
    parser: ParserView,
    diff: DiffView,
    facing: LRDirection,
    now: u64,
    next: ParserView,
    id: MoveId,
)
    requires
        parser.ticked(diff, facing, now, next),
    ensures
        next.registered.dom() =~= parser.registered.dom(),
        next.registered.dom().contains(id) ==> !next.registered[id].is_done(),
{
}

/// A tick keeps every registered motion well formed.
pub proof fn lemma_tick_keeps_wf(
    parser: ParserView,
    diff: DiffView,
    facing: LRDirection,
    now: u64,
    next: ParserView,
)
    requires
        parser.wf(),
        parser.ticked(diff, facing, now, next),
    ensures
        next.wf(),
{
    let framed = parser.with_frame(diff, facing);
    let relative = relative_diff(diff, facing);
    assert forall|id: MoveId| next.registered.dom().contains(id) implies (
    #[trigger] next.registered[id]).wf() by {
        crate::motion_input::lemma_advance_keeps_wf(
            framed.registered[id],
            relative,
            framed.relative_frame(),
            now,
            framed.timing,
        );
    }
}

/// The moves recognized in a tick are those whose motions the tick completes:
/// each stands once behind the moves that waited in the queue, which stay.
pub proof fn lemma_recognized_moves(
    parser: ParserView,
    diff: DiffView,
    facing: LRDirection,
    now: u64,
    next: ParserView,
    id: MoveId,
)
    requires
        parser.ticked(diff, facing, now, next),
    ensures
        parser.events.is_prefix_of(next.events),
        next.events.skip(parser.events.len() as int).contains(id) <==> parser.with_frame(
            diff,
            facing,
        ).fires(id, relative_diff(diff, facing), now),
        next.events.len() - parser.events.len() <= next.events.skip(
            parser.events.len() as int,
        ).to_set().len(),
{
    let fired = next.events.skip(parser.events.len() as int);
    assert(parser.events =~= next.events.take(parser.events.len() as int));
    fired.unique_seq_to_set();
}

/// To an entity that faces right the diff is what it is; to one that faces
/// left its stick move is mirrored, and nothing else changes.
pub proof fn lemma_relative_diff(diff: DiffView, facing: LRDirection)
    ensures
        relative_diff(diff, LRDirection::Right) == diff,
        relative_diff(diff, LRDirection::Left) == diff.flip(),
        relative_diff(relative_diff(diff, facing), facing) == diff,
        relative_diff(diff, facing).pressed == diff.pressed,
        relative_diff(diff, facing).released == diff.released,
{
}

} // verus!
