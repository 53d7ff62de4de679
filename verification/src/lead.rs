//! The learned frontier-lead behaviour of a caller, and the capture
//! discontinuity inferred from a departure from it.
//!
//! The lead is `reference_frontier - expected_reference_frontier`: how far the
//! far-end feed has run ahead of where the standing alignment says the near
//! stream's next sample sits.

use vstd::prelude::*;

verus! {

/// Process calls the lead model folds into its envelope before it will infer
/// anything at all.
pub const LEAD_BASELINE_BLOCKS: u32 = 32;

/// Process calls one envelope bucket spans.
pub const LEAD_WINDOW_BLOCKS: u32 = 128;

/// The fewest consecutive process calls a step must survive before it is
/// believed, whatever the caller.
pub const LEAD_STEP_BLOCKS: u32 = 4;

/// The largest lead and the largest block the model can reason about: a quarter
/// of the absolute sample index range.
pub const LEAD_LIMIT: u64 = 0x3fff_ffff_ffff_ffff;

/// The larger of two counts.
pub open spec fn larger(a: int, b: int) -> int {
    if a >= b {
        a
    } else {
        b
    }
}

/// The smaller of two counts.
pub open spec fn smaller(a: int, b: int) -> int {
    if a <= b {
        a
    } else {
        b
    }
}

fn max_u64(a: u64, b: u64) -> (r: u64)
    ensures
        r == larger(a as int, b as int),
{
    if a >= b {
        a
    } else {
        b
    }
}

fn min_u64(a: u64, b: u64) -> (r: u64)
    ensures
        r == smaller(a as int, b as int),
{
    if a <= b {
        a
    } else {
        b
    }
}

/// The caller's learned frontier-lead behaviour, and the inference drawn from a
/// departure from it.
#[derive(Debug, Clone, Copy)]
pub struct LeadModel {
    /// Leads folded since construction or the last reseed.
    pub blocks: u32,
    /// The retired bucket's `(min, max)`, once one has retired.
    pub previous: Option<(u64, u64)>,
    /// The filling bucket's `(min, max)`.
    pub current: Option<(u64, u64)>,
    /// Leads folded into the filling bucket.
    pub current_blocks: u32,
    /// The retired bucket's largest near block, once one has retired.
    pub previous_block: Option<u64>,
    /// The filling bucket's largest near block.
    pub current_block: Option<u64>,
    /// Consecutive observations sitting outside the bound and not draining.
    pub run: u32,
    /// The highest lead the standing run has seen, which a drain falls away
    /// from and a plateau does not.
    pub run_max: u64,
}

/// A bucket's lower edge never sits above its upper edge.
pub open spec fn bucket_ordered(bucket: Option<(u64, u64)>) -> bool {
    bucket matches Some((low, high)) ==> low <= high
}

/// `bucket` widened to include `lead`.
pub open spec fn bucket_with(bucket: Option<(u64, u64)>, lead: u64) -> Option<(u64, u64)> {
    match bucket {
        Some((low, high)) => Some(
            (smaller(low as int, lead as int) as u64, larger(high as int, lead as int) as u64),
        ),
        None => Some((lead, lead)),
    }
}

impl LeadModel {
    /// Both buckets are ordered, the filling bucket has not outgrown its span,
    /// it has a lead in it exactly when something was folded into it, and the
    /// standing run's high-water mark is zero when no run stands.
    pub open spec fn wf(self) -> bool {
        &&& bucket_ordered(self.previous)
        &&& bucket_ordered(self.current)
        &&& self.current_blocks < LEAD_WINDOW_BLOCKS
        &&& (self.current_blocks == 0 <==> self.current is None)
        &&& (self.run == 0 ==> self.run_max == 0)
    }

    /// The just-constructed model, which has learned nothing.
    pub open spec fn fresh() -> LeadModel {
        LeadModel {
            blocks: 0,
            previous: None,
            current: None,
            current_blocks: 0,
            previous_block: None,
            current_block: None,
            run: 0,
            run_max: 0,
        }
    }

    /// The learned envelope over the remembered window, as a specification.
    pub open spec fn learned(self) -> Option<(u64, u64)> {
        match (self.previous, self.current) {
            (Some((a_low, a_high)), Some((b_low, b_high))) => Some(
                (
                    smaller(a_low as int, b_low as int) as u64,
                    larger(a_high as int, b_high as int) as u64,
                ),
            ),
            (Some(one), None) => Some(one),
            (None, Some(one)) => Some(one),
            (None, None) => None,
        }
    }

    /// The largest near block over the remembered window, never zero.
    pub open spec fn largest_block(self) -> int {
        let recent: int = match (self.previous_block, self.current_block) {
            (Some(a), Some(b)) => larger(a as int, b as int),
            (Some(one), None) => one as int,
            (None, Some(one)) => one as int,
            (None, None) => 0,
        };
        larger(recent, 1)
    }

    /// How far a lead may sit above the envelope and still be ordinary.
    pub open spec fn tolerance(self) -> int {
        let span: int = match self.learned() {
            Some((low, high)) => high - low,
            None => 0,
        };
        larger(span, self.largest_block())
    }

    /// The lead above which an observation is out of the ordinary, once
    /// anything has been learned.
    pub open spec fn ceiling(self) -> Option<int> {
        match self.learned() {
            Some((_, high)) => Some(high + self.tolerance()),
            None => None,
        }
    }

    /// Whether no remembered lead and no remembered block exceeds `limit`.
    pub open spec fn within(self, limit: int) -> bool {
        &&& self.previous matches Some((_, high)) ==> high <= limit
        &&& self.current matches Some((_, high)) ==> high <= limit
        &&& self.previous_block matches Some(block) ==> block <= limit
        &&& self.current_block matches Some(block) ==> block <= limit
    }

    /// Whether every remembered count is small enough for the bound above it to
    /// fit the machine integers.
    pub open spec fn in_limits(self) -> bool {
        self.within(LEAD_LIMIT as int)
    }

    /// Whether the bound a block of `block_len` samples is judged against fits
    /// the machine integers, which it does for all counts in limits.
    pub open spec fn fits(self, block_len: u64) -> bool {
        self.with_block(block_len).ceiling() matches Some(bound) ==> bound <= u64::MAX
    }

    /// How many consecutive out-of-the-ordinary observations are needed before
    /// a plateau is believed.
    pub open spec fn patience(self) -> int {
        let outgrow: int = (self.tolerance() / self.largest_block()) % 0x1_0000_0000;
        larger(LEAD_STEP_BLOCKS as int, smaller(outgrow + 3, u32::MAX as int))
    }

    /// The model with the near block of this observation remembered.
    pub open spec fn with_block(self, block_len: u64) -> LeadModel {
        LeadModel {
            current_block: Some(
                match self.current_block {
                    Some(max) => larger(max as int, block_len as int) as u64,
                    None => block_len,
                },
            ),
            ..self
        }
    }

    /// Whether `lead` sits above what the caller's own behaviour explains.
    pub open spec fn outside(self, lead: u64) -> bool {
        self.ceiling() matches Some(bound) && lead > bound
    }

    /// The model after a lead it accepts as ordinary.
    pub open spec fn folded(self, lead: u64) -> LeadModel {
        let blocks: u32 = if self.blocks == u32::MAX {
            u32::MAX
        } else {
            (self.blocks + 1) as u32
        };
        let bucket = bucket_with(self.current, lead);
        if self.current_blocks + 1 >= LEAD_WINDOW_BLOCKS {
            LeadModel {
                blocks,
                previous: bucket,
                current: None,
                previous_block: self.current_block,
                current_block: None,
                current_blocks: 0,
                ..self
            }
        } else {
            LeadModel {
                blocks,
                current: bucket,
                current_blocks: (self.current_blocks + 1) as u32,
                ..self
            }
        }
    }

    /// The run as it stands once an outside lead has been counted.
    pub open spec fn with_run(self, lead: u64) -> LeadModel {
        LeadModel {
            run: if self.run == u32::MAX {
                u32::MAX
            } else {
                (self.run + 1) as u32
            },
            run_max: larger(self.run_max as int, lead as int) as u64,
            ..self
        }
    }

    /// Whether an outside lead has fallen back from the run's high-water mark
    /// by more than ordinary, so it is draining rather than holding.
    pub open spec fn draining(self, lead: u64) -> bool {
        self.run_max - lead > self.tolerance()
    }

    /// The model one observation leaves behind.
    pub open spec fn observed(self, lead: u64, block_len: u64) -> LeadModel {
        let seen = self.with_block(block_len);
        if !seen.outside(lead) {
            (LeadModel { run: 0, run_max: 0, ..seen }).folded(lead)
        } else if seen.with_run(lead).draining(lead) {
            LeadModel { run: 1, run_max: lead, ..seen }
        } else {
            seen.with_run(lead)
        }
    }

    /// Whether one observation infers a capture discontinuity: an outside lead
    /// that is not draining, on a learned baseline, after a long enough run.
    pub open spec fn infers(self, lead: u64, block_len: u64) -> bool {
        let seen = self.with_block(block_len);
        let counted = seen.with_run(lead);
        &&& seen.outside(lead)
        &&& !counted.draining(lead)
        &&& counted.blocks >= LEAD_BASELINE_BLOCKS
        &&& counted.run >= counted.patience()
    }

    /// A model that has learned nothing.
    pub fn new() -> (r: LeadModel)
        ensures
            r == LeadModel::fresh(),
            r.wf(),
            r.in_limits(),
    {
        LeadModel {
            blocks: 0,
            previous: None,
            current: None,
            current_blocks: 0,
            previous_block: None,
            current_block: None,
            run: 0,
            run_max: 0,
        }
    }

    /// Returns the model to its just-constructed state, so the baseline is
    /// learned again from scratch.
    ///
    /// Called at every seam, declared or inferred, and at a whole-stream reset:
    /// past the seam the anchor is rebuilt onto the reference frontier, so the
    /// lead restarts at zero and every envelope learned against the old anchor
    /// describes a stream that no longer exists.
    pub fn reseed(&mut self)
        ensures
            *final(self) == LeadModel::fresh(),
            final(self).wf(),
            final(self).in_limits(),
    {
        *self = LeadModel::new();
    }

    /// The learned envelope over the remembered window.
    pub fn envelope(&self) -> (r: Option<(u64, u64)>)
        ensures
            r == self.learned(),
    {
        match (self.previous, self.current) {
            (Some((a_low, a_high)), Some((b_low, b_high))) => Some(
                (min_u64(a_low, b_low), max_u64(a_high, b_high)),
            ),
            (Some(one), None) => Some(one),
            (None, Some(one)) => Some(one),
            (None, None) => None,
        }
    }

    /// How far a lead may sit above the envelope's top, or fall back from a
    /// run's high-water mark, and still be this caller's own behaviour: the
    /// span its ordinary oscillation covers, floored at the block size it
    /// delivers audio in, because the model cannot resolve a step finer than
    /// that whatever the envelope says.
    pub fn margin(&self) -> (r: u64)
        requires
            self.wf(),
        ensures
            r == self.tolerance(),
    {
        let span: u64 = match self.envelope() {
            Some((low, high)) => high - low,
            None => 0,
        };
        max_u64(span, self.block())
    }

    /// The largest near block the caller has delivered over the remembered
    /// window, never zero.
    pub fn block(&self) -> (r: u64)
        ensures
            r == self.largest_block(),
    {
        let recent: u64 = match (self.previous_block, self.current_block) {
            (Some(a), Some(b)) => max_u64(a, b),
            (Some(one), None) => one,
            (None, Some(one)) => one,
            (None, None) => 0,
        };
        max_u64(recent, 1)
    }

    /// The lead above which an observation is no longer explicable as this
    /// caller's ordinary behaviour. [`None`] until something has been learned.
    pub fn bound(&self) -> (r: Option<u64>)
        requires
            self.wf(),
            self.ceiling() matches Some(bound) ==> bound <= u64::MAX,
        ensures
            r is Some == self.ceiling() is Some,
            r matches Some(bound) ==> self.ceiling() == Some(bound as int),
    {
        match self.envelope() {
            Some((_, high)) => Some(high + self.margin()),
            None => None,
        }
    }

    /// How many consecutive outside-the-bound observations this caller must
    /// produce before a plateau is believed.
    pub fn required_run(&self) -> (r: u32)
        requires
            self.wf(),
        ensures
            r == self.patience(),
    {
        let margin: u64 = self.margin();
        let block: u64 = self.block();
        let ratio: u64 = margin / block;
        let outgrow: u32 = (ratio % 0x1_0000_0000) as u32;
        let patience: u32 = outgrow.saturating_add(3);
        if LEAD_STEP_BLOCKS >= patience {
            LEAD_STEP_BLOCKS
        } else {
            patience
        }
    }

    /// Folds one process call's lead in, and reports whether a capture
    /// discontinuity is now inferred.
    pub fn observe(&mut self, lead: u64, block_len: u64) -> (r: bool)
        requires
            old(self).wf(),
            old(self).fits(block_len),
        ensures
            *final(self) == old(self).observed(lead, block_len),
            r == old(self).infers(lead, block_len),
            final(self).wf(),
            old(self).in_limits() && lead <= LEAD_LIMIT && block_len <= LEAD_LIMIT
                ==> final(self).in_limits(),
    {
        let largest: u64 = match self.current_block {
            Some(max) => max_u64(max, block_len),
            None => block_len,
        };
        self.current_block = Some(largest);
        let outside: bool = match self.bound() {
            Some(bound) => lead > bound,
            None => false,
        };
        if !outside {
            self.run = 0;
            self.run_max = 0;
            self.fold(lead);
            return false;
        }
        self.run = self.run.saturating_add(1);
        self.run_max = max_u64(self.run_max, lead);
        if self.run_max - lead > self.margin() {
            self.run = 1;
            self.run_max = lead;
            return false;
        }
        self.blocks >= LEAD_BASELINE_BLOCKS && self.run >= self.required_run()
    }

    /// Folds a lead the model accepts as ordinary into the sliding envelope.
    pub fn fold(&mut self, lead: u64)
        requires
            old(self).wf(),
        ensures
            *final(self) == old(self).folded(lead),
            final(self).wf(),
    {
        self.blocks = self.blocks.saturating_add(1);
        let bucket: (u64, u64) = match self.current {
            Some((low, high)) => (min_u64(low, lead), max_u64(high, lead)),
            None => (lead, lead),
        };
        self.current = Some(bucket);
        self.current_blocks = self.current_blocks + 1;
        if self.current_blocks >= LEAD_WINDOW_BLOCKS {
            self.previous = self.current;
            self.current = None;
            // The block size retires on the same rotation. It is refilled by
            // the next observation, which happens before anything reads it, so
            // the floor is never momentarily absent while a bucket is empty.
            self.previous_block = self.current_block;
            self.current_block = None;
            self.current_blocks = 0;
        }
    }
}

/// The model after a whole sequence of `(lead, block length)` observations.
pub open spec fn after_leads(model: LeadModel, observations: Seq<(u64, u64)>) -> LeadModel
    decreases observations.len(),
{
    if observations.len() == 0 {
        model
    } else {
        let (lead, block_len) = observations.last();
        after_leads(model, observations.drop_last()).observed(lead, block_len)
    }
}

/// Whether any observation of the sequence infers a discontinuity.
pub open spec fn infers_somewhere(model: LeadModel, observations: Seq<(u64, u64)>) -> bool {
    exists|i: int|
        0 <= i < observations.len() && #[trigger] after_leads(model, observations.take(i)).infers(
            observations[i].0,
            observations[i].1,
        )
}

/// Nothing is inferred before a baseline exists: whatever the first 32 process
/// calls past a seam present, none of them infers a discontinuity.
pub proof fn lemma_no_inference_before_the_baseline(observations: Seq<(u64, u64)>)
    requires
        observations.len() <= LEAD_BASELINE_BLOCKS,
    ensures
        !infers_somewhere(LeadModel::fresh(), observations),
{
    let fresh = LeadModel::fresh();
    assert forall|i: int| 0 <= i < observations.len() implies !#[trigger] after_leads(
        fresh,
        observations.take(i),
    ).infers(observations[i].0, observations[i].1) by {
        lemma_folds_at_most_one_per_call(fresh, observations.take(i));
    }
}

/// Each observation folds at most one lead into the baseline.
proof fn lemma_folds_at_most_one_per_call(model: LeadModel, observations: Seq<(u64, u64)>)
    ensures
        after_leads(model, observations).blocks <= model.blocks + observations.len(),
    decreases observations.len(),
{
    if observations.len() > 0 {
        lemma_folds_at_most_one_per_call(model, observations.drop_last());
    }
}

/// A discontinuity is inferred only from a sustained step: at least
/// [`LEAD_STEP_BLOCKS`] consecutive observations outside the learned bound, on a
/// baseline of at least [`LEAD_BASELINE_BLOCKS`] folded leads. A single
/// observation back inside the bound ends the run.
pub proof fn lemma_inference_needs_a_sustained_step(model: LeadModel, lead: u64, block_len: u64)
    ensures
        model.infers(lead, block_len) ==> model.run + 1 >= LEAD_STEP_BLOCKS && model.blocks
            >= LEAD_BASELINE_BLOCKS && model.with_block(block_len).outside(lead),
        model.observed(lead, block_len).run <= model.run + 1,
        !model.with_block(block_len).outside(lead) ==> model.observed(lead, block_len).run == 0,
{
}

/// Whether the `i`-th observation of a sequence sat above the bound in force.
pub open spec fn outside_at(model: LeadModel, observations: Seq<(u64, u64)>, i: int) -> bool {
    after_leads(model, observations.take(i)).with_block(observations[i].1).outside(
        observations[i].0,
    )
}

/// How many observations of a sequence were ordinary: not above the bound in
/// force, or made before there was one.
pub open spec fn ordinary_count(model: LeadModel, observations: Seq<(u64, u64)>) -> nat
    decreases observations.len(),
{
    if observations.len() == 0 {
        0
    } else {
        ordinary_count(model, observations.drop_last()) + (if outside_at(
            model,
            observations,
            observations.len() - 1,
        ) {
            0nat
        } else {
            1nat
        })
    }
}

/// What an inference rests on, over any sequence of observations since the model
/// was made or reseeded: at least [`LEAD_BASELINE_BLOCKS`] earlier observations
/// were ordinary, and this one and the ones right before it, as many as the
/// required run in all and never fewer than [`LEAD_STEP_BLOCKS`], sat above the
/// bound.
pub proof fn lemma_an_inference_rests_on_the_stream(observations: Seq<(u64, u64)>, i: int)
    requires
        0 <= i < observations.len(),
        after_leads(LeadModel::fresh(), observations.take(i)).infers(
            observations[i].0,
            observations[i].1,
        ),
    ensures
        ordinary_count(LeadModel::fresh(), observations.take(i)) >= LEAD_BASELINE_BLOCKS,
        ({
            let seen = after_leads(LeadModel::fresh(), observations.take(i)).with_block(
                observations[i].1,
            );
            &&& seen.patience() >= LEAD_STEP_BLOCKS
            &&& i + 1 >= seen.patience()
            &&& forall|j: int|
                i + 1 - seen.patience() <= j <= i ==> #[trigger] outside_at(
                    LeadModel::fresh(),
                    observations,
                    j,
                )
        }),
{
    let fresh = LeadModel::fresh();
    let earlier = observations.take(i);
    lemma_the_run_is_the_stream(fresh, earlier);
    let before = after_leads(fresh, earlier);
    let seen = before.with_block(observations[i].1);
    let counted = seen.with_run(observations[i].0);
    assert(counted.patience() == seen.patience());
    assert(outside_at(fresh, observations, i));
    assert forall|j: int| i + 1 - seen.patience() <= j <= i implies #[trigger] outside_at(
        fresh,
        observations,
        j,
    ) by {
        if j < i {
            assert(outside_at(fresh, earlier, j));
            assert(earlier.take(j) =~= observations.take(j));
        }
    }
}

/// The counters describe the stream: no more leads were folded than observations
/// were ordinary, and the standing run is made of the latest observations, every
/// one of them above the bound.
proof fn lemma_the_run_is_the_stream(model: LeadModel, observations: Seq<(u64, u64)>)
    requires
        model == LeadModel::fresh(),
    ensures
        after_leads(model, observations).blocks <= ordinary_count(model, observations),
        after_leads(model, observations).run <= observations.len(),
        forall|j: int|
            observations.len() - after_leads(model, observations).run <= j < observations.len()
                ==> #[trigger] outside_at(model, observations, j),
    decreases observations.len(),
{
    if observations.len() > 0 {
        let shorter = observations.drop_last();
        let last = observations.len() - 1;
        lemma_the_run_is_the_stream(model, shorter);
        assert(observations.take(last) =~= shorter);
        let after = after_leads(model, observations);
        assert forall|j: int| observations.len() - after.run <= j < observations.len() implies
            #[trigger] outside_at(model, observations, j) by {
            if j < last {
                assert(outside_at(model, shorter, j));
                assert(shorter.take(j) =~= observations.take(j));
            }
        }
    }
}

/// A step is never learned as ordinary behaviour: a lead above the bound leaves
/// the learned envelope as it was, and any other lead infers nothing and is inside
/// the envelope afterwards. The bound is the envelope's upper edge and as much
/// again as the envelope is wide, or one of the largest blocks remembered, this
/// one included.
pub proof fn lemma_only_ordinary_leads_are_learned(model: LeadModel, lead: u64, block_len: u64)
    requires
        model.wf(),
    ensures
        ({
            let seen = model.with_block(block_len);
            let after = model.observed(lead, block_len);
            &&& seen.learned() == model.learned()
            &&& seen.largest_block() == larger(model.largest_block(), block_len as int)
            &&& model.learned() matches Some((low, high)) ==> seen.ceiling() == Some(
                high + larger(high - low, larger(model.largest_block(), block_len as int)),
            )
            &&& model.learned() is None ==> seen.ceiling() is None
            &&& seen.outside(lead) ==> after.learned() == model.learned()
            &&& !seen.outside(lead) ==> !model.infers(lead, block_len) && (after.learned() matches
                Some((low, high)) && low <= lead <= high)
        }),
{
}

/// A caller whose lead oscillates by no more than the block it delivers audio
/// in is never second-guessed, however far ahead of the engine it rests and
/// however long the stream runs.
pub proof fn lemma_a_steady_caller_is_never_inferred_against(
    leads: Seq<u64>,
    block_len: u64,
    low: u64,
)
    requires
        forall|i: int| 0 <= i < leads.len() ==> low <= #[trigger] leads[i] <= low + block_len,
    ensures
        !infers_somewhere(LeadModel::fresh(), leads.map_values(|lead: u64| (lead, block_len))),
{
    let fresh = LeadModel::fresh();
    let observations = leads.map_values(|lead: u64| (lead, block_len));
    assert forall|i: int| 0 <= i < observations.len() implies !#[trigger] after_leads(
        fresh,
        observations.take(i),
    ).infers(observations[i].0, observations[i].1) by {
        lemma_steady_envelope(leads.take(i), block_len, low);
        assert(leads.take(i).map_values(|lead: u64| (lead, block_len)) =~= observations.take(i));
        lemma_steady_lead_is_inside(after_leads(fresh, observations.take(i)), leads[i], block_len, low);
    }
}

/// The envelope of a steady caller stays inside the caller's own oscillation.
proof fn lemma_steady_envelope(leads: Seq<u64>, block_len: u64, low: u64)
    requires
        forall|i: int| 0 <= i < leads.len() ==> low <= #[trigger] leads[i] <= low + block_len,
    ensures
        steady_within(
            after_leads(LeadModel::fresh(), leads.map_values(|lead: u64| (lead, block_len))),
            block_len,
            low,
        ),
    decreases leads.len(),
{
    let observations = leads.map_values(|lead: u64| (lead, block_len));
    if leads.len() > 0 {
        lemma_steady_envelope(leads.drop_last(), block_len, low);
        assert(leads.drop_last().map_values(|lead: u64| (lead, block_len))
            =~= observations.drop_last());
        let before = after_leads(LeadModel::fresh(), observations.drop_last());
        lemma_steady_lead_is_inside(before, leads.last(), block_len, low);
    }
}

/// Every remembered lead lies in `low ..= low + block_len`.
spec fn steady_within(model: LeadModel, block_len: u64, low: u64) -> bool {
    &&& model.wf()
    &&& model.previous matches Some((a, b)) ==> low <= a && b <= low + block_len
    &&& model.current matches Some((a, b)) ==> low <= a && b <= low + block_len
}

proof fn lemma_steady_lead_is_inside(model: LeadModel, lead: u64, block_len: u64, low: u64)
    requires
        steady_within(model, block_len, low),
        low <= lead <= low + block_len,
    ensures
        !model.with_block(block_len).outside(lead),
{
    let seen = model.with_block(block_len);
    assert(seen.largest_block() >= block_len);
    assert(seen.learned() == model.learned());
}

/// Whether a caller drains its lead one block at a time and refills it, by
/// however much and however unevenly, only when less than a block of it is left
/// above `low`. The lead stays within what the run counter can measure in blocks.
pub open spec fn refills_when_short(leads: Seq<u64>, block_len: u64, low: u64) -> bool {
    &&& block_len >= 1
    &&& forall|i: int|
        0 <= i < leads.len() ==> low <= #[trigger] leads[i] < low + (u32::MAX - 3) * block_len
    &&& forall|i: int|
        0 < i < leads.len() ==> leads[i - 1] < low + block_len || #[trigger] leads[i] + block_len
            == leads[i - 1]
}

/// A caller that feeds and processes at the same rate is never second-guessed,
/// whatever chunks it feeds in: a burst stands out only while it drains, and the
/// required run outlasts every drain.
pub proof fn lemma_a_matched_caller_is_never_inferred_against(
    leads: Seq<u64>,
    block_len: u64,
    low: u64,
)
    requires
        refills_when_short(leads, block_len, low),
    ensures
        !infers_somewhere(LeadModel::fresh(), leads.map_values(|lead: u64| (lead, block_len))),
{
    let fresh = LeadModel::fresh();
    let observations = leads.map_values(|lead: u64| (lead, block_len));
    assert forall|i: int| 0 <= i < observations.len() implies !#[trigger] after_leads(
        fresh,
        observations.take(i),
    ).infers(observations[i].0, observations[i].1) by {
        lemma_a_standing_run_drains(leads.take(i), block_len, low);
        assert(leads.take(i).map_values(|lead: u64| (lead, block_len)) =~= observations.take(i));
        if i > 0 {
            assert(leads.take(i).last() == leads[i - 1]);
        }
        lemma_a_drain_is_not_a_step(
            after_leads(fresh, observations.take(i)),
            leads.take(i),
            leads[i],
            block_len,
            low,
        );
    }
}

/// Everything remembered lies in the caller's own range, and a standing run has
/// drained by one block at each observation since it began.
spec fn drains(model: LeadModel, leads: Seq<u64>, block_len: u64, low: u64) -> bool {
    let top = low + (u32::MAX - 3) * block_len;
    &&& model.wf()
    &&& model.previous matches Some((a, b)) ==> low <= a && b < top
    &&& model.current matches Some((a, b)) ==> low <= a && b < top
    &&& model.previous_block matches Some(block) ==> block == block_len
    &&& model.current_block matches Some(block) ==> block == block_len
    &&& model.run >= 1 ==> {
        &&& leads.len() > 0
        &&& leads.last() >= low + block_len
        &&& model.run_max == leads.last() + (model.run - 1) * block_len
        &&& (model.run - 1) * block_len <= model.with_block(block_len).tolerance()
    }
}

proof fn lemma_a_standing_run_drains(leads: Seq<u64>, block_len: u64, low: u64)
    requires
        refills_when_short(leads, block_len, low),
    ensures
        drains(
            after_leads(LeadModel::fresh(), leads.map_values(|lead: u64| (lead, block_len))),
            leads,
            block_len,
            low,
        ),
    decreases leads.len(),
{
    let observations = leads.map_values(|lead: u64| (lead, block_len));
    if leads.len() > 0 {
        let shorter = leads.drop_last();
        lemma_a_standing_run_drains(shorter, block_len, low);
        assert(shorter.map_values(|lead: u64| (lead, block_len)) =~= observations.drop_last());
        if shorter.len() > 0 {
            assert(shorter.last() == leads[leads.len() - 2]);
        }
        assert(leads.last() == leads[leads.len() - 1]);
        lemma_a_drain_is_not_a_step(
            after_leads(LeadModel::fresh(), observations.drop_last()),
            shorter,
            leads.last(),
            block_len,
            low,
        );
        assert(shorter.push(leads.last()) =~= leads);
    }
}

/// One more observation of a matched caller: nothing is inferred, and whatever
/// run stands is still draining.
proof fn lemma_a_drain_is_not_a_step(
    model: LeadModel,
    leads: Seq<u64>,
    lead: u64,
    block_len: u64,
    low: u64,
)
    requires
        block_len >= 1,
        drains(model, leads, block_len, low),
        low <= lead < low + (u32::MAX - 3) * block_len,
        leads.len() > 0 ==> leads.last() < low + block_len || lead + block_len == leads.last(),
    ensures
        !model.infers(lead, block_len),
        drains(model.observed(lead, block_len), leads.push(lead), block_len, low),
{
    let seen = model.with_block(block_len);
    let after = model.observed(lead, block_len);
    assert(seen.learned() == model.learned());
    assert(seen.largest_block() == block_len);
    assert(leads.push(lead).last() == lead);
    if !seen.outside(lead) {
        assert(after.run == 0);
    } else {
        let counted = seen.with_run(lead);
        let span = seen.tolerance();
        assert(counted.tolerance() == span);
        assert(lead > low + block_len);
        assert(after.with_block(block_len).learned() == seen.learned());
        assert(after.with_block(block_len).largest_block() == block_len);
        assert(after.with_block(block_len).tolerance() == span);
        let run = model.run as int;
        if run >= 1 {
            assert(lead + block_len == leads.last());
            assert((run - 1) * block_len + block_len == run * block_len) by (nonlinear_arith);
            assert(counted.run_max == lead + run * block_len);
            let blocks = span / (block_len as int);
            assert(0 <= blocks < u32::MAX - 3 && (run * block_len <= span ==> run <= blocks))
                by (nonlinear_arith)
                requires
                    block_len >= 1,
                    0 <= span < (u32::MAX - 3) * block_len,
                    blocks == span / (block_len as int),
            ;
            assert(blocks % 0x1_0000_0000 == blocks);
            if counted.draining(lead) {
                assert(after.run == 1 && after.run_max == lead);
                assert((after.run - 1) * block_len == 0) by (nonlinear_arith)
                    requires
                        after.run == 1,
                ;
            } else {
                assert(run * block_len <= span);
                assert(after.run == run + 1 && after.run_max == lead + run * block_len);
                assert((after.run - 1) * block_len == run * block_len) by (nonlinear_arith)
                    requires
                        after.run == run + 1,
                ;
            }
        } else {
            assert(counted.run_max == lead);
            assert(after.run == 1 && after.run_max == lead);
            assert((after.run - 1) * block_len == 0) by (nonlinear_arith)
                requires
                    after.run == 1,
            ;
        }
    }
}

} // verus!
