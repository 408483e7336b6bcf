//! A compiled motion together with the attempts at it that are alive.

use vstd::prelude::*;
use crate::compiler::{compile, compiled, CompileError};
use crate::helper_types::{Diff, DiffView, Frame, FrameView};
use crate::parser_head::{HeadView, ParserHead, Timing};
use crate::requirement::{requirement_views, well_formed, Requirement, RequirementView};

verus! {

/// The attempts of a list, as mathematical values.
pub open spec fn head_views(heads: Seq<ParserHead>) -> Seq<HeadView> {
    heads.map_values(|h: ParserHead| h@)
}

/// The attempts that live on after a tick, each moved on by the tick's diff.
/// An attempt that has expired when the tick comes is dropped before it can
/// move; the others keep their order.
pub open spec fn advance_live(
    requirements: Seq<RequirementView>,
    heads: Seq<HeadView>,
    diff: DiffView,
    now: u64,
    timing: Timing,
) -> Seq<HeadView>
    decreases heads.len(),
{
    if heads.len() == 0 {
        Seq::empty()
    } else {
        let earlier = advance_live(requirements, heads.drop_last(), diff, now, timing);
        if heads.last().expired(now, timing) {
            earlier
        } else {
            earlier.push(heads.last().advance(requirements, diff, now, timing))
        }
    }
}

/// A motion as a mathematical value.
pub struct MotionView {
    pub requirements: Seq<RequirementView>,
    pub heads: Seq<HeadView>,
}

impl MotionView {
    /// The motion names a requirement, every charge has something to charge
    /// into, and no attempt is further than the end of the list.
    pub open spec fn wf(self) -> bool {
        &&& self.requirements.len() > 0
        &&& well_formed(self.requirements)
        &&& forall|i: int|
            0 <= i < self.heads.len() ==> (#[trigger] self.heads[i]).index
                <= self.requirements.len()
    }

    /// Whether some attempt has passed the last requirement.
    pub open spec fn is_done(self) -> bool {
        exists|i: int|
            0 <= i < self.heads.len() && (#[trigger] self.heads[i]).is_done(self.requirements)
    }

    /// Whether some attempt waits at `index`.
    pub open spec fn tracks(self, index: nat) -> bool {
        exists|i: int| 0 <= i < self.heads.len() && (#[trigger] self.heads[i]).index == index
    }

    /// The attempt that would start in this tick: a new one, moved on by what
    /// is held at the moment as if it had all just changed.
    pub open spec fn candidate(self, frame: FrameView, now: u64, timing: Timing) -> HeadView {
        HeadView::fresh().advance(self.requirements, frame.diff_from_neutral(), now, timing)
    }

    /// The attempts of this tick before they move: those alive, and behind
    /// them the candidate unless an attempt already waits where it has come to.
    pub open spec fn with_candidate(self, frame: FrameView, now: u64, timing: Timing) -> Seq<
        HeadView,
    > {
        let candidate = self.candidate(frame, now, timing);
        if self.tracks(candidate.index) {
            self.heads
        } else {
            self.heads.push(candidate)
        }
    }

    /// The motion after a tick. A motion that is done waits to be cleared and
    /// does not change. Otherwise the candidate joins the attempts, those that
    /// have expired are dropped, and the others move on by the tick's diff.
    pub open spec fn advance(
        self,
        diff: DiffView,
        frame: FrameView,
        now: u64,
        timing: Timing,
    ) -> MotionView {
        if self.is_done() {
            self
        } else {
            MotionView {
                heads: advance_live(
                    self.requirements,
                    self.with_candidate(frame, now, timing),
                    diff,
                    now,
                    timing,
                ),
                ..self
            }
        }
    }

    /// The motion without its attempts.
    pub open spec fn cleared(self) -> MotionView {
        MotionView { heads: Seq::empty(), ..self }
    }
}

/// A compiled motion and the attempts at it.
#[derive(Debug)]
pub struct MotionInput {
    heads: Vec<ParserHead>,
    requirements: Vec<Requirement>,
}

impl View for MotionInput {
    type V = MotionView;

    closed spec fn view(&self) -> MotionView {
        MotionView {
            requirements: requirement_views(self.requirements@),
            heads: head_views(self.heads@),
        }
    }
}

impl MotionInput {
    /// Compiles a definition into a motion without attempts, or says why it
    /// does not compile.
    pub fn compile(input: &str) -> (r: Result<MotionInput, CompileError>)
        ensures
            r matches Ok(motion) ==> compiled(input@) is Ok && compiled(input@)->Ok_0
                == motion@.requirements,
            r matches Ok(motion) ==> motion@.heads == Seq::<HeadView>::empty() && motion@.wf(),
            r matches Err(e) ==> compiled(input@) is Err && compiled(input@)->Err_0 == e,
    {
        match compile(input) {
            Ok(requirements) => {
                let motion = MotionInput { heads: Vec::new(), requirements };
                proof {
                    assert(motion@.heads =~= Seq::<HeadView>::empty());
                }
                Ok(motion)
            },
            Err(e) => Err(e),
        }
    }

    /// The requirements of the motion, in order.
    pub fn requirements(&self) -> (r: &Vec<Requirement>)
        ensures
            requirement_views(r@) == self@.requirements,
    {
        &self.requirements
    }

    /// The attempts that are alive, in the order in which they started.
    pub fn heads(&self) -> (r: &Vec<ParserHead>)
        ensures
            head_views(r@) == self@.heads,
    {
        &self.heads
    }

    /// Drops every attempt.
    pub fn clear(&mut self)
        ensures
            final(self)@ == old(self)@.cleared(),
    {
        self.heads.clear();
        proof {
            assert(self@.heads =~= Seq::<HeadView>::empty());
        }
    }

    /// Whether some attempt has passed the last requirement.
    pub fn is_done(&self) -> (r: bool)
        ensures
            r == self@.is_done(),
    {
        let mut i: usize = 0;
        while i < self.heads.len()
            invariant
                i <= self.heads.len(),
                forall|j: int|
                    0 <= j < i ==> !(#[trigger] self@.heads[j]).is_done(self@.requirements),
            decreases self.heads.len() - i,
        {
            proof {
                assert(self@.heads[i as int] == self.heads@[i as int]@);
            }
            if self.heads[i].is_done(&self.requirements) {
                return true;
            }
            i += 1;
        }
        false
    }

    /// Whether some attempt waits at `index`.
    fn tracks(&self, index: usize) -> (r: bool)
        ensures
            r == self@.tracks(index as nat),
    {
        let mut i: usize = 0;
        while i < self.heads.len()
            invariant
                i <= self.heads.len(),
                forall|j: int| 0 <= j < i ==> (#[trigger] self@.heads[j]).index != index,
            decreases self.heads.len() - i,
        {
            proof {
                assert(self@.heads[i as int] == self.heads@[i as int]@);
            }
            if self.heads[i].index == index {
                return true;
            }
            i += 1;
        }
        false
    }

    /// Takes the motion through one tick: `diff` is what changed in it and
    /// `frame` what is held after it, both as the entity sees them.
    pub fn advance(&mut self, diff: &Diff, frame: &Frame, now: u64, timing: &Timing)
        requires
            old(self)@.wf(),
        ensures
            final(self)@ == old(self)@.advance(diff@, frame@, now, *timing),
            final(self)@.wf(),
    {
        if self.is_done() {
            return;
        }
        let from_neutral = frame.diff_from_neutral();
        let new_head = ParserHead::new_from_diff(&self.requirements, &from_neutral, now, timing);
        if !self.tracks(new_head.index) {
            let ghost before = self.heads@;
            self.heads.push(new_head);
            proof {
                assert(head_views(self.heads@) =~= head_views(before).push(new_head@));
            }
        }
        let ghost requirements = old(self)@.requirements;
        let ghost started = head_views(self.heads@);
        assert(started == old(self)@.with_candidate(frame@, now, *timing));
        assert forall|j: int| 0 <= j < started.len() implies (#[trigger] started[j]).index
            <= requirements.len() by {
            if j < old(self)@.heads.len() {
                assert(started[j] == old(self)@.heads[j]);
            }
        }
        let mut kept: Vec<ParserHead> = Vec::new();
        let mut i: usize = 0;
        proof {
            assert(started.take(0) =~= Seq::<HeadView>::empty());
            assert(head_views(kept@) =~= Seq::<HeadView>::empty());
        }
        while i < self.heads.len()
            invariant
                i <= self.heads.len(),
                requirements == requirement_views(self.requirements@),
                well_formed(requirements),
                started == head_views(self.heads@),
                forall|j: int|
                    0 <= j < started.len() ==> (#[trigger] started[j]).index
                        <= requirements.len(),
                head_views(kept@) == advance_live(
                    requirements,
                    started.take(i as int),
                    diff@,
                    now,
                    *timing,
                ),
                forall|j: int|
                    0 <= j < kept.len() ==> (#[trigger] head_views(kept@)[j]).index
                        <= requirements.len(),
            decreases self.heads.len() - i,
        {
            proof {
                let next = started.take(i as int + 1);
                assert(next.drop_last() == started.take(i as int));
                assert(next.last() == started[i as int]);
                assert(started[i as int] == self.heads@[i as int]@);
            }
            if !self.heads[i].expired(now, timing) {
                let mut head = self.heads[i].clone();
                head.advance(&self.requirements, diff, now, timing);
                let ghost kept_before = kept@;
                kept.push(head);
                proof {
                    assert(head_views(kept@) =~= head_views(kept_before).push(head@));
                    assert forall|j: int| 0 <= j < kept.len() implies (#[trigger] head_views(
                        kept@,
                    )[j]).index <= requirements.len() by {
                        if j < kept_before.len() {
                            assert(head_views(kept@)[j] == head_views(kept_before)[j]);
                        }
                    }
                }
            }
            i += 1;
        }
        proof {
            assert(started.take(i as int) == started);
        }
        self.heads = kept;
    }
}

impl Clone for MotionInput {
    fn clone(&self) -> (r: MotionInput)
        ensures
            r@ == self@,
    {
        let mut requirements: Vec<Requirement> = Vec::new();
        let mut i: usize = 0;
        proof {
            assert(requirement_views(requirements@) =~= requirement_views(
                self.requirements@,
            ).take(0));
        }
        while i < self.requirements.len()
            invariant
                i <= self.requirements.len(),
                requirement_views(requirements@) == requirement_views(self.requirements@).take(
                    i as int,
                ),
            decreases self.requirements.len() - i,
        {
            let copy = self.requirements[i].clone();
            let ghost before = requirements@;
            requirements.push(copy);
            proof {
                assert(requirement_views(requirements@) =~= requirement_views(before).push(
                    copy@,
                ));
                assert(requirement_views(requirements@) =~= requirement_views(
                    self.requirements@,
                ).take(i as int + 1));
            }
            i += 1;
        }
        let mut heads: Vec<ParserHead> = Vec::new();
        let mut j: usize = 0;
        proof {
            assert(requirement_views(self.requirements@).take(i as int) == requirement_views(
                self.requirements@,
            ));
            assert(head_views(heads@) =~= head_views(self.heads@).take(0));
        }
        while j < self.heads.len()
            invariant
                j <= self.heads.len(),
                head_views(heads@) == head_views(self.heads@).take(j as int),
            decreases self.heads.len() - j,
        {
            let copy = self.heads[j].clone();
            let ghost before = heads@;
            heads.push(copy);
            proof {
                assert(head_views(heads@) =~= head_views(before).push(copy@));
                assert(head_views(heads@) =~= head_views(self.heads@).take(j as int + 1));
            }
            j += 1;
        }
        proof {
            assert(head_views(self.heads@).take(j as int) == head_views(self.heads@));
        }
        MotionInput { heads, requirements }
    }
}

/// The attempts move independently of each other: taking two groups of them
/// through a tick one after the other gives what taking them together gives.
pub proof fn lemma_advance_live_concat(
    requirements: Seq<RequirementView>,
    first: Seq<HeadView>,
    second: Seq<HeadView>,
    diff: DiffView,
    now: u64,
    timing: Timing,
)
    ensures
        advance_live(requirements, first + second, diff, now, timing) == advance_live(
            requirements,
            first,
            diff,
            now,
            timing,
        ) + advance_live(requirements, second, diff, now, timing),
    decreases second.len(),
{
    let together = advance_live(requirements, first + second, diff, now, timing);
    let apart = advance_live(requirements, first, diff, now, timing) + advance_live(
        requirements,
        second,
        diff,
        now,
        timing,
    );
    if second.len() == 0 {
        assert(first + second == first);
        assert(together =~= apart);
    } else {
        assert((first + second).drop_last() == first + second.drop_last());
        assert((first + second).last() == second.last());
        lemma_advance_live_concat(requirements, first, second.drop_last(), diff, now, timing);
        assert(together =~= apart);
    }
}

/// The attempts that live on after a tick do not depend on the order in which
/// the attempts are kept: exchanging two groups of them exchanges what lives
/// on of each, and loses or adds nothing.
pub proof fn lemma_advance_live_order(
    requirements: Seq<RequirementView>,
    first: Seq<HeadView>,
    second: Seq<HeadView>,
    diff: DiffView,
    now: u64,
    timing: Timing,
)
    ensures
        advance_live(requirements, first + second, diff, now, timing).to_multiset()
            == advance_live(requirements, second + first, diff, now, timing).to_multiset(),
{
    let a = advance_live(requirements, first, diff, now, timing);
    let b = advance_live(requirements, second, diff, now, timing);
    lemma_advance_live_concat(requirements, first, second, diff, now, timing);
    lemma_advance_live_concat(requirements, second, first, diff, now, timing);
    vstd::seq_lib::lemma_multiset_commutative(a, b);
    vstd::seq_lib::lemma_multiset_commutative(b, a);
    assert(a.to_multiset().add(b.to_multiset()) =~= b.to_multiset().add(a.to_multiset()));
}

/// Every attempt that lives on after a tick is an attempt that had not
/// expired, moved on by the tick's diff.
pub proof fn lemma_survivor_had_not_expired(
    requirements: Seq<RequirementView>,
    heads: Seq<HeadView>,
    diff: DiffView,
    now: u64,
    timing: Timing,
    j: int,
) -> (i: int)
    requires
        0 <= j < advance_live(requirements, heads, diff, now, timing).len(),
    ensures
        0 <= i < heads.len(),
        !heads[i].expired(now, timing),
        advance_live(requirements, heads, diff, now, timing)[j] == heads[i].advance(
            requirements,
            diff,
            now,
            timing,
        ),
    decreases heads.len(),
{
    let earlier = advance_live(requirements, heads.drop_last(), diff, now, timing);
    if j < earlier.len() {
        lemma_survivor_had_not_expired(requirements, heads.drop_last(), diff, now, timing, j)
    } else {
        heads.len() - 1
    }
}

/// No more attempts live on after a tick than were alive before it.
pub proof fn lemma_advance_live_len(
    requirements: Seq<RequirementView>,
    heads: Seq<HeadView>,
    diff: DiffView,
    now: u64,
    timing: Timing,
)
    ensures
        advance_live(requirements, heads, diff, now, timing).len() <= heads.len(),
    decreases heads.len(),
{
    if heads.len() > 0 {
        lemma_advance_live_len(requirements, heads.drop_last(), diff, now, timing);
    }
}

/// Where every attempt has expired, none lives on.
pub proof fn lemma_expired_heads_are_dropped(
    requirements: Seq<RequirementView>,
    heads: Seq<HeadView>,
    diff: DiffView,
    now: u64,
    timing: Timing,
)
    requires
        forall|i: int| 0 <= i < heads.len() ==> (#[trigger] heads[i]).expired(now, timing),
    ensures
        advance_live(requirements, heads, diff, now, timing) == Seq::<HeadView>::empty(),
    decreases heads.len(),
{
    if heads.len() > 0 {
        assert(heads[heads.len() - 1].expired(now, timing));
        assert forall|i: int| 0 <= i < heads.drop_last().len() implies (
        #[trigger] heads.drop_last()[i]).expired(now, timing) by {
            assert(heads.drop_last()[i] == heads[i]);
        }
        lemma_expired_heads_are_dropped(requirements, heads.drop_last(), diff, now, timing);
    }
}

/// A tick keeps a well-formed motion well formed.
pub proof fn lemma_advance_keeps_wf(
    motion: MotionView,
    diff: DiffView,
    frame: FrameView,
    now: u64,
    timing: Timing,
)
    requires
        motion.wf(),
    ensures
        motion.advance(diff, frame, now, timing).wf(),
        motion.advance(diff, frame, now, timing).requirements == motion.requirements,
{
    if !motion.is_done() {
        let started = motion.with_candidate(frame, now, timing);
        let after = advance_live(motion.requirements, started, diff, now, timing);
        crate::parser_head::lemma_advance_moves_forward(
            HeadView::fresh(),
            motion.requirements,
            frame.diff_from_neutral(),
            now,
            timing,
        );
        assert forall|j: int| 0 <= j < after.len() implies (#[trigger] after[j]).index
            <= motion.requirements.len() by {
            let i = lemma_survivor_had_not_expired(
                motion.requirements,
                started,
                diff,
                now,
                timing,
                j,
            );
            if i < motion.heads.len() {
                assert(started[i] == motion.heads[i]);
            }
            crate::parser_head::lemma_advance_moves_forward(
                started[i],
                motion.requirements,
                diff,
                now,
                timing,
            );
        }
    }
}

/// A motion that was cleared is not done, and a motion that is done stays as
/// it is until it is cleared.
pub proof fn lemma_done_until_cleared(
    motion: MotionView,
    diff: DiffView,
    frame: FrameView,
    now: u64,
    timing: Timing,
)
    ensures
        !motion.cleared().is_done(),
        motion.is_done() ==> motion.advance(diff, frame, now, timing) == motion,
{
}

} // verus!
