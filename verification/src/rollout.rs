//! Reconstruction of a session from its persisted rollout.
//!
//! A rollout is the list of everything a session has recorded. Resuming or
//! forking replays it from the newest item to the oldest once, to find the
//! newest surviving history base, the settings and the baseline context of the
//! newest surviving user turn, and the number of compactions that shape the
//! context window.

use vstd::prelude::*;

verus! {

/// What the replay reads of one recorded event.
#[derive(Debug)]
pub enum EventMsg {
    /// The newest `num_turns` user turns were dropped.
    ThreadRolledBack { num_turns: u32 },
    TurnComplete { turn_id: String },
    TurnAborted { turn_id: Option<String> },
    TurnStarted { turn_id: String },
    UserMessage,
    /// Any other event.
    Other,
}

/// What the replay reads of a turn's recorded context.
#[derive(Debug)]
pub struct TurnContextItem {
    pub turn_id: Option<String>,
    pub model: String,
    pub realtime_active: Option<bool>,
}

/// What the replay reads of one rollout item.
///
/// Contents that the replay only hands on are found again by the position of
/// the item in the rollout.
#[derive(Debug)]
pub enum RolloutItem {
    SessionMeta,
    /// A model-visible item, and whether it starts a user turn.
    ResponseItem { user_turn_boundary: bool },
    /// A compaction, and whether it recorded a complete replacement history.
    Compacted { has_replacement_history: bool },
    TurnContext(TurnContextItem),
    EventMsg(EventMsg),
}

/// Settings of an earlier turn.
#[derive(Debug)]
pub struct PreviousTurnSettings {
    pub model: String,
    pub realtime_active: Option<bool>,
}

/// The baseline context that a replay span has established.
#[derive(Clone, Copy, Debug, PartialEq, Eq)]
pub enum TurnReferenceContextItem {
    /// No turn context has been seen for this span yet.
    ///
    /// This differs from `Cleared`: there is no evidence that the turn ever
    /// had a baseline.
    NeverSet,
    /// A baseline existed and a later compaction invalidated it.
    Cleared,
    /// The position of the turn context that is the latest baseline.
    Latest(usize),
}

/// What has been gathered of the turn that the replay is in.
#[derive(Debug)]
pub struct ActiveReplaySegment {
    pub turn_id: Option<String>,
    pub counts_as_user_turn: bool,
    pub compaction_count: u64,
    pub pre_user_compaction_count: u64,
    pub previous_turn_settings: Option<PreviousTurnSettings>,
    pub reference_context_item: TurnReferenceContextItem,
    pub base_replacement_history_index: Option<usize>,
}

/// The state of a replay.
#[derive(Debug)]
pub struct RolloutReplay {
    pub base_replacement_history_index: Option<usize>,
    pub previous_turn_settings: Option<PreviousTurnSettings>,
    pub reference_context_item: TurnReferenceContextItem,
    pub window_generation: u64,
    pub pending_rollback_turns: usize,
    pub active_segment: Option<ActiveReplaySegment>,
}

/// What a replay has found out.
#[derive(Debug)]
pub struct RolloutReconstructionPlan {
    /// Position of the newest surviving compaction with a replacement history.
    pub base_replacement_history_index: Option<usize>,
    pub previous_turn_settings: Option<PreviousTurnSettings>,
    /// Position of the turn context that is the baseline.
    pub reference_context_item: Option<usize>,
    pub window_generation: u64,
}

// ---------------------------------------------------------------------------
// Models
// ---------------------------------------------------------------------------
/// The mathematical counterpart of [`PreviousTurnSettings`].
pub struct Settings {
    pub model: Seq<char>,
    pub realtime_active: Option<bool>,
}

/// The mathematical counterpart of [`ActiveReplaySegment`].
pub struct Segment {
    pub turn_id: Option<Seq<char>>,
    pub counts_as_user_turn: bool,
    pub compactions: nat,
    pub compactions_before_user: nat,
    pub settings: Option<Settings>,
    pub reference: TurnReferenceContextItem,
    pub base: Option<int>,
}

/// The mathematical counterpart of [`RolloutReplay`].
pub struct Replay {
    pub base: Option<int>,
    pub settings: Option<Settings>,
    pub reference: TurnReferenceContextItem,
    pub window_generation: nat,
    pub pending: nat,
    pub active: Option<Segment>,
}

/// The mathematical counterpart of [`RolloutReconstructionPlan`].
pub struct Plan {
    pub base: Option<int>,
    pub settings: Option<Settings>,
    pub reference: Option<int>,
    pub window_generation: nat,
}

pub open spec fn text_of(s: Option<String>) -> Option<Seq<char>> {
    match s {
        Some(t) => Some(t@),
        None => None,
    }
}

pub open spec fn position_of(i: Option<usize>) -> Option<int> {
    match i {
        Some(k) => Some(k as int),
        None => None,
    }
}

pub open spec fn settings_of(s: Option<PreviousTurnSettings>) -> Option<Settings> {
    match s {
        Some(p) => Some(Settings { model: p.model@, realtime_active: p.realtime_active }),
        None => None,
    }
}

impl View for ActiveReplaySegment {
    type V = Segment;

    open spec fn view(&self) -> Segment {
        Segment {
            turn_id: text_of(self.turn_id),
            counts_as_user_turn: self.counts_as_user_turn,
            compactions: self.compaction_count as nat,
            compactions_before_user: self.pre_user_compaction_count as nat,
            settings: settings_of(self.previous_turn_settings),
            reference: self.reference_context_item,
            base: position_of(self.base_replacement_history_index),
        }
    }
}

impl View for RolloutReplay {
    type V = Replay;

    open spec fn view(&self) -> Replay {
        Replay {
            base: position_of(self.base_replacement_history_index),
            settings: settings_of(self.previous_turn_settings),
            reference: self.reference_context_item,
            window_generation: self.window_generation as nat,
            pending: self.pending_rollback_turns as nat,
            active: match self.active_segment {
                Some(s) => Some(s@),
                None => None,
            },
        }
    }
}

impl View for RolloutReconstructionPlan {
    type V = Plan;

    open spec fn view(&self) -> Plan {
        Plan {
            base: position_of(self.base_replacement_history_index),
            settings: settings_of(self.previous_turn_settings),
            reference: position_of(self.reference_context_item),
            window_generation: self.window_generation as nat,
        }
    }
}

// ---------------------------------------------------------------------------
// What a replay means
// ---------------------------------------------------------------------------
/// A turn of which nothing is known yet.
pub open spec fn fresh_segment() -> Segment {
    Segment {
        turn_id: None,
        counts_as_user_turn: false,
        compactions: 0,
        compactions_before_user: 0,
        settings: None,
        reference: TurnReferenceContextItem::NeverSet,
        base: None,
    }
}

/// A replay that has seen nothing yet.
pub open spec fn fresh_replay() -> Replay {
    Replay {
        base: None,
        settings: None,
        reference: TurnReferenceContextItem::NeverSet,
        window_generation: 0,
        pending: 0,
        active: None,
    }
}

/// The turn the replay is in, or a fresh one.
pub open spec fn current(r: Replay) -> Segment {
    match r.active {
        Some(s) => s,
        None => fresh_segment(),
    }
}

/// Two turn ids may belong to one turn unless both are known and differ.
pub open spec fn compatible(a: Option<Seq<char>>, b: Option<Seq<char>>) -> bool {
    a is None || b is None || a == b
}

/// `s` with the turn id `id` if it has none yet.
pub open spec fn identified(s: Segment, id: Option<Seq<char>>) -> Segment {
    Segment {
        turn_id: if s.turn_id is None {
            id
        } else {
            s.turn_id
        },
        ..s
    }
}

/// The sum, held at the largest machine word.
pub open spec fn saturating_word(n: nat) -> nat {
    if n > usize::MAX {
        usize::MAX as nat
    } else {
        n
    }
}

/// The sum, held at the largest counter.
pub open spec fn saturating_count(n: nat) -> nat {
    if n > u64::MAX {
        u64::MAX as nat
    } else {
        n
    }
}

/// The replay after the turn `s` is complete.
///
/// A pending rollback swallows user turns; compactions made before the user
/// input of a swallowed turn still count. Otherwise what `s` has found fills
/// in what newer turns have left open.
pub open spec fn finalized(r: Replay, s: Segment) -> Replay {
    if r.pending > 0 {
        if s.counts_as_user_turn {
            Replay {
                window_generation: saturating_count(
                    r.window_generation + s.compactions_before_user,
                ),
                pending: (r.pending - 1) as nat,
                ..r
            }
        } else {
            r
        }
    } else {
        Replay {
            window_generation: saturating_count(r.window_generation + s.compactions),
            base: if r.base is None {
                s.base
            } else {
                r.base
            },
            settings: if r.settings is None && s.counts_as_user_turn {
                s.settings
            } else {
                r.settings
            },
            reference: if r.reference is NeverSet && (s.counts_as_user_turn
                || s.reference is Cleared) {
                s.reference
            } else {
                r.reference
            },
            ..r
        }
    }
}

/// The replay after the item at position `index`.
pub open spec fn replayed(r: Replay, index: int, item: RolloutItem) -> Replay {
    let s = current(r);
    match item {
        RolloutItem::SessionMeta => r,
        RolloutItem::ResponseItem { user_turn_boundary } => Replay {
            active: Some(
                Segment { counts_as_user_turn: s.counts_as_user_turn || user_turn_boundary, ..s },
            ),
            ..r
        },
        RolloutItem::Compacted { has_replacement_history } => Replay {
            active: Some(
                Segment {
                    compactions: saturating_count(s.compactions + 1),
                    compactions_before_user: if s.counts_as_user_turn {
                        saturating_count(s.compactions_before_user + 1)
                    } else {
                        s.compactions_before_user
                    },
                    reference: if r.reference is NeverSet && s.reference is NeverSet {
                        TurnReferenceContextItem::Cleared
                    } else {
                        s.reference
                    },
                    base: if r.base is None && s.base is None && has_replacement_history {
                        Some(index)
                    } else {
                        s.base
                    },
                    ..s
                },
            ),
            ..r
        },
        RolloutItem::TurnContext(ctx) => {
            let known = identified(s, text_of(ctx.turn_id));
            let fits = compatible(known.turn_id, text_of(ctx.turn_id));
            Replay {
                active: Some(
                    Segment {
                        settings: if fits && r.settings is None {
                            Some(
                                Settings {
                                    model: ctx.model@,
                                    realtime_active: ctx.realtime_active,
                                },
                            )
                        } else {
                            known.settings
                        },
                        reference: if fits && r.reference is NeverSet
                            && known.reference is NeverSet {
                            TurnReferenceContextItem::Latest(index as usize)
                        } else {
                            known.reference
                        },
                        ..known
                    },
                ),
                ..r
            }
        },
        RolloutItem::EventMsg(event) => match event {
            EventMsg::ThreadRolledBack { num_turns } => Replay {
                pending: saturating_word(r.pending + num_turns as nat),
                ..r
            },
            EventMsg::TurnComplete { turn_id } => Replay {
                active: Some(identified(s, Some(turn_id@))),
                ..r
            },
            EventMsg::TurnAborted { turn_id } => match turn_id {
                Some(id) => Replay { active: Some(identified(s, Some(id@))), ..r },
                None => r,
            },
            EventMsg::UserMessage => Replay {
                active: Some(Segment { counts_as_user_turn: true, ..s }),
                ..r
            },
            EventMsg::TurnStarted { turn_id } => match r.active {
                Some(active) => if compatible(active.turn_id, Some(turn_id@)) {
                    finalized(Replay { active: None, ..r }, active)
                } else {
                    r
                },
                None => r,
            },
            EventMsg::Other => r,
        },
    }
}

/// The replay of the items from position `from` on, newest first.
pub open spec fn replay_from(items: Seq<RolloutItem>, from: int) -> Replay
    decreases items.len() - from,
{
    if from >= items.len() {
        fresh_replay()
    } else {
        replayed(replay_from(items, from + 1), from, items[from])
    }
}

/// The replay with its last turn completed.
pub open spec fn closed_replay(r: Replay) -> Replay {
    match r.active {
        Some(s) => finalized(Replay { active: None, ..r }, s),
        None => r,
    }
}

/// What a finished replay has found.
pub open spec fn plan_of(r: Replay) -> Plan {
    let done = closed_replay(r);
    Plan {
        base: done.base,
        settings: done.settings,
        reference: match done.reference {
            TurnReferenceContextItem::Latest(i) => Some(i as int),
            _ => None,
        },
        window_generation: done.window_generation,
    }
}

/// What the rollout `items` reconstructs to.
pub open spec fn reconstruction_plan(items: Seq<RolloutItem>) -> Plan {
    plan_of(replay_from(items, 0))
}

/// Whether the item at `i` is a compaction with a replacement history.
pub open spec fn is_base(items: Seq<RolloutItem>, i: int) -> bool {
    0 <= i < items.len() && items[i] == (RolloutItem::Compacted { has_replacement_history: true })
}

/// Whether the item at `i` is a turn context.
pub open spec fn is_turn_context(items: Seq<RolloutItem>, i: int) -> bool {
    0 <= i < items.len() && items[i] is TurnContext
}

/// Positions in the plan belong to items of the kind they stand for.
pub open spec fn plan_fits(items: Seq<RolloutItem>, plan: Plan) -> bool {
    &&& plan.base matches Some(i) ==> is_base(items, i)
    &&& plan.reference matches Some(i) ==> is_turn_context(items, i)
}

// ---------------------------------------------------------------------------
// Invariant of a replay
// ---------------------------------------------------------------------------
/// What holds of the replay of the items from `from` on.
spec fn sound(items: Seq<RolloutItem>, from: int, r: Replay) -> bool {
    let s = current(r);
    &&& r.window_generation + s.compactions <= items.len() - from
    &&& s.compactions_before_user <= s.compactions
    &&& r.base matches Some(i) ==> is_base(items, i)
    &&& s.base matches Some(i) ==> is_base(items, i)
    &&& r.reference matches TurnReferenceContextItem::Latest(i) ==> is_turn_context(items, i as int)
    &&& s.reference matches TurnReferenceContextItem::Latest(i) ==> is_turn_context(items, i as int)
}

proof fn lemma_replay_sound(items: Seq<RolloutItem>, from: int)
    requires
        0 <= from <= items.len(),
        items.len() <= usize::MAX,
    ensures
        sound(items, from, replay_from(items, from)),
    decreases items.len() - from,
{
    if from < items.len() {
        lemma_replay_sound(items, from + 1);
    }
}

// ---------------------------------------------------------------------------
// Replaying
// ---------------------------------------------------------------------------
fn same_id(a: &String, b: &String) -> (r: bool)
    ensures
        r == (a@ == b@),
{
    *a == *b
}

/// Whether two turn ids may belong to one turn.
pub fn turn_ids_are_compatible(
    active_turn_id: &Option<String>,
    item_turn_id: &Option<String>,
) -> (r: bool)
    ensures
        r == compatible(text_of(*active_turn_id), text_of(*item_turn_id)),
{
    match (active_turn_id, item_turn_id) {
        (Some(a), Some(b)) => same_id(a, b),
        _ => true,
    }
}

impl ActiveReplaySegment {
    /// A turn of which nothing is known yet.
    pub fn fresh() -> (r: Self)
        ensures
            r@ == fresh_segment(),
    {
        ActiveReplaySegment {
            turn_id: None,
            counts_as_user_turn: false,
            compaction_count: 0,
            pre_user_compaction_count: 0,
            previous_turn_settings: None,
            reference_context_item: TurnReferenceContextItem::NeverSet,
            base_replacement_history_index: None,
        }
    }

    fn identify(&mut self, id: &Option<String>)
        ensures
            final(self)@ == identified(old(self)@, text_of(*id)),
    {
        if self.turn_id.is_none() {
            self.turn_id = id.clone();
        }
    }
}

impl RolloutReplay {
    /// A replay that has seen nothing yet.
    pub fn fresh() -> (r: Self)
        ensures
            r@ == fresh_replay(),
    {
        RolloutReplay {
            base_replacement_history_index: None,
            previous_turn_settings: None,
            reference_context_item: TurnReferenceContextItem::NeverSet,
            window_generation: 0,
            pending_rollback_turns: 0,
            active_segment: None,
        }
    }

    fn take_segment(&mut self) -> (r: ActiveReplaySegment)
        ensures
            r@ == current(old(self)@),
            final(self)@ == (Replay { active: None, ..old(self)@ }),
    {
        match self.active_segment.take() {
            Some(s) => s,
            None => ActiveReplaySegment::fresh(),
        }
    }

    /// Completes the turn `active_segment`.
    ///
    /// Thread rollback drops the newest surviving user turns. In a reverse
    /// replay that means skipping the next completed turns that contain a user
    /// message.
    pub fn finalize_active_segment(&mut self, active_segment: ActiveReplaySegment)
        ensures
            final(self)@ == finalized(old(self)@, active_segment@),
    {
        if self.pending_rollback_turns > 0 {
            if active_segment.counts_as_user_turn {
                self.window_generation =
                self.window_generation.saturating_add(active_segment.pre_user_compaction_count);
                self.pending_rollback_turns = self.pending_rollback_turns - 1;
            }
            return ;
        }
        self.window_generation =
        self.window_generation.saturating_add(active_segment.compaction_count);
        // A surviving replacement history is a complete base: older items do
        // not affect the rebuilt history.
        if self.base_replacement_history_index.is_none() {
            self.base_replacement_history_index = active_segment.base_replacement_history_index;
        }
        if self.previous_turn_settings.is_none() && active_segment.counts_as_user_turn {
            self.previous_turn_settings = active_segment.previous_turn_settings;
        }
        let open = match self.reference_context_item {
            TurnReferenceContextItem::NeverSet => true,
            _ => false,
        };
        let cleared = match active_segment.reference_context_item {
            TurnReferenceContextItem::Cleared => true,
            _ => false,
        };
        if open && (active_segment.counts_as_user_turn || cleared) {
            self.reference_context_item = active_segment.reference_context_item;
        }
    }

    /// Takes in the item at position `index`.
    pub fn replay(&mut self, index: usize, item: &RolloutItem)
        ensures
            final(self)@ == replayed(old(self)@, index as int, *item),
    {
        let open = match self.reference_context_item {
            TurnReferenceContextItem::NeverSet => true,
            _ => false,
        };
        match item {
            RolloutItem::SessionMeta => {},
            RolloutItem::ResponseItem { user_turn_boundary } => {
                let mut segment = self.take_segment();
                segment.counts_as_user_turn = segment.counts_as_user_turn || *user_turn_boundary;
                self.active_segment = Some(segment);
            },
            RolloutItem::Compacted { has_replacement_history } => {
                let mut segment = self.take_segment();
                segment.compaction_count = segment.compaction_count.saturating_add(1);
                // Seen after the user message in a reverse replay, the
                // compaction came before the user input, so it survives a
                // rollback of that turn.
                if segment.counts_as_user_turn {
                    segment.pre_user_compaction_count =
                    segment.pre_user_compaction_count.saturating_add(1);
                }
                let unset = match segment.reference_context_item {
                    TurnReferenceContextItem::NeverSet => true,
                    _ => false,
                };
                if open && unset {
                    segment.reference_context_item = TurnReferenceContextItem::Cleared;
                }
                if self.base_replacement_history_index.is_none()
                    && segment.base_replacement_history_index.is_none()
                    && *has_replacement_history {
                    segment.base_replacement_history_index = Some(index);
                }
                self.active_segment = Some(segment);
            },
            RolloutItem::TurnContext(ctx) => {
                let mut segment = self.take_segment();
                segment.identify(&ctx.turn_id);
                let fits = turn_ids_are_compatible(&segment.turn_id, &ctx.turn_id);
                if fits && self.previous_turn_settings.is_none() {
                    segment.previous_turn_settings = Some(
                        PreviousTurnSettings {
                            model: ctx.model.clone(),
                            realtime_active: ctx.realtime_active,
                        },
                    );
                }
                let unset = match segment.reference_context_item {
                    TurnReferenceContextItem::NeverSet => true,
                    _ => false,
                };
                if fits && open && unset {
                    segment.reference_context_item = TurnReferenceContextItem::Latest(index);
                }
                self.active_segment = Some(segment);
            },
            RolloutItem::EventMsg(event) => self.replay_event(event),
        }
    }

    fn replay_event(&mut self, event: &EventMsg)
        ensures
            forall|index: int|
                final(self)@ == #[trigger] replayed(
                    old(self)@,
                    index,
                    RolloutItem::EventMsg(*event),
                ),
    {
        match event {
            EventMsg::ThreadRolledBack { num_turns } => {
                self.pending_rollback_turns =
                self.pending_rollback_turns.saturating_add(*num_turns as usize);
            },
            EventMsg::TurnComplete { turn_id } => {
                let mut segment = self.take_segment();
                segment.identify(&Some(turn_id.clone()));
                self.active_segment = Some(segment);
            },
            EventMsg::TurnAborted { turn_id } => {
                if turn_id.is_some() {
                    let mut segment = self.take_segment();
                    segment.identify(turn_id);
                    self.active_segment = Some(segment);
                }
            },
            EventMsg::UserMessage => {
                let mut segment = self.take_segment();
                segment.counts_as_user_turn = true;
                self.active_segment = Some(segment);
            },
            EventMsg::TurnStarted { turn_id } => {
                // The start of a turn is the oldest boundary of its segment.
                match self.active_segment.take() {
                    Some(segment) => {
                        if turn_ids_are_compatible(&segment.turn_id, &Some(turn_id.clone())) {
                            self.finalize_active_segment(segment);
                        } else {
                            self.active_segment = Some(segment);
                        }
                    },
                    None => {},
                }
            },
            EventMsg::Other => {},
        }
    }

    /// Completes the last turn and sums up.
    pub fn into_plan(self) -> (r: RolloutReconstructionPlan)
        ensures
            r@ == plan_of(self@),
    {
        let mut done = self;
        match done.active_segment.take() {
            Some(segment) => done.finalize_active_segment(segment),
            None => {},
        }
        RolloutReconstructionPlan {
            base_replacement_history_index: done.base_replacement_history_index,
            previous_turn_settings: done.previous_turn_settings,
            reference_context_item: match done.reference_context_item {
                TurnReferenceContextItem::Latest(index) => Some(index),
                _ => None,
            },
            window_generation: done.window_generation,
        }
    }
}

/// Scans the rollout newest to oldest once.
pub fn reconstruct_rollout_plan(rollout_items: &[RolloutItem]) -> (r: RolloutReconstructionPlan)
    ensures
        r@ == reconstruction_plan(rollout_items@),
        plan_fits(rollout_items@, r@),
        r@.window_generation <= rollout_items@.len(),
{
    let mut replay = RolloutReplay::fresh();
    let mut next: usize = rollout_items.len();
    while next > 0
        invariant
            next <= rollout_items.len(),
            replay@ == replay_from(rollout_items@, next as int),
        decreases next,
    {
        next -= 1;
        replay.replay(next, &rollout_items[next]);
    }
    proof {
        lemma_replay_sound(rollout_items@, 0);
    }
    replay.into_plan()
}

// ---------------------------------------------------------------------------
// Rebuilding the history
// ---------------------------------------------------------------------------
/// One step of rebuilding a history. Positions are positions in the rollout.
#[derive(Clone, Copy, Debug, PartialEq, Eq)]
pub enum HistoryStep {
    /// Make the replacement history of this compaction the whole history.
    Replace(usize),
    /// Record this response item.
    Record(usize),
    /// Make the user messages of the history so far and the summary of this
    /// compaction, which has no replacement history, the whole history.
    RebuildFromSummary(usize),
    /// Drop the newest user turns.
    DropLastUserTurns(u32),
}

/// The steps and metadata with which a session resumes.
#[derive(Debug)]
pub struct RolloutReconstruction {
    /// The steps that build the history, starting from an empty one.
    pub history: Vec<HistoryStep>,
    pub previous_turn_settings: Option<PreviousTurnSettings>,
    pub reference_context_item: Option<usize>,
    pub window_generation: u64,
}

/// What the item at position `index` does to the history.
pub open spec fn step_of(item: RolloutItem, index: int) -> Option<HistoryStep> {
    match item {
        RolloutItem::ResponseItem { .. } => Some(HistoryStep::Record(index as usize)),
        RolloutItem::Compacted { has_replacement_history } => if has_replacement_history {
            Some(HistoryStep::Replace(index as usize))
        } else {
            Some(HistoryStep::RebuildFromSummary(index as usize))
        },
        RolloutItem::EventMsg(EventMsg::ThreadRolledBack { num_turns }) => Some(
            HistoryStep::DropLastUserTurns(num_turns),
        ),
        _ => None,
    }
}

/// The steps of the items at the positions from `from` up to `to`.
pub open spec fn steps_between(items: Seq<RolloutItem>, from: int, to: int) -> Seq<HistoryStep>
    decreases to - from,
{
    if to <= from {
        Seq::empty()
    } else {
        let before = steps_between(items, from, to - 1);
        match step_of(items[to - 1], to - 1) {
            Some(step) => before.push(step),
            None => before,
        }
    }
}

/// Whether the positions from `from` on hold a compaction without a replacement history.
pub open spec fn has_legacy_compaction(items: Seq<RolloutItem>, from: int) -> bool {
    exists|i: int|
        from <= i < items.len() && #[trigger] items[i] == (RolloutItem::Compacted {
            has_replacement_history: false,
        })
}

/// The steps that rebuild the history from the base on.
pub open spec fn history_steps(items: Seq<RolloutItem>, base: Option<int>) -> Seq<HistoryStep> {
    match base {
        Some(i) => seq![HistoryStep::Replace(i as usize)] + steps_between(
            items,
            i + 1,
            items.len() as int,
        ),
        None => steps_between(items, 0, items.len() as int),
    }
}

/// The first position after the base.
pub open spec fn suffix_start(base: Option<int>) -> int {
    match base {
        Some(i) => i + 1,
        None => 0,
    }
}

/// Lays out how the history of `plan` is rebuilt.
///
/// A compaction without a replacement history after the base drops the
/// baseline context: it is injected again at the end of the resumed history.
pub fn materialize_rollout_reconstruction(
    rollout_items: &[RolloutItem],
    plan: RolloutReconstructionPlan,
) -> (r: RolloutReconstruction)
    requires
        plan@.base matches Some(i) ==> is_base(rollout_items@, i),
    ensures
        r.history@ == history_steps(rollout_items@, plan@.base),
        settings_of(r.previous_turn_settings) == plan@.settings,
        position_of(r.reference_context_item) == (if has_legacy_compaction(
            rollout_items@,
            suffix_start(plan@.base),
        ) {
            None
        } else {
            plan@.reference
        }),
        r.window_generation == plan.window_generation,
{
    let total: usize = rollout_items.len();
    let mut history: Vec<HistoryStep> = Vec::new();
    let mut next: usize = 0;
    match plan.base_replacement_history_index {
        Some(index) => {
            assert(is_base(rollout_items@, index as int));
            history.push(HistoryStep::Replace(index));
            next = index + 1;
        },
        None => {},
    }
    let start: usize = next;
    let ghost head = history@;
    assert(head + steps_between(rollout_items@, start as int, start as int) == head);
    let mut saw_legacy_compaction = false;
    while next < total
        invariant
            start <= next <= total,
            total == rollout_items@.len(),
            history@ == head + steps_between(rollout_items@, start as int, next as int),
            saw_legacy_compaction == exists|i: int|
                start <= i < next && #[trigger] rollout_items@[i] == (RolloutItem::Compacted {
                    has_replacement_history: false,
                }),
        decreases total - next,
    {
        let ghost before = history@;
        let ghost seen = saw_legacy_compaction;
        match &rollout_items[next] {
            RolloutItem::ResponseItem { .. } => {
                history.push(HistoryStep::Record(next));
            },
            RolloutItem::Compacted { has_replacement_history } => {
                if *has_replacement_history {
                    history.push(HistoryStep::Replace(next));
                } else {
                    saw_legacy_compaction = true;
                    history.push(HistoryStep::RebuildFromSummary(next));
                }
            },
            RolloutItem::EventMsg(event) => {
                match event {
                    EventMsg::ThreadRolledBack { num_turns } => {
                        history.push(HistoryStep::DropLastUserTurns(*num_turns));
                    },
                    _ => {},
                }
            },
            RolloutItem::TurnContext(_) => {},
            RolloutItem::SessionMeta => {},
        }
        proof {
            let item = rollout_items@[next as int];
            let done = steps_between(rollout_items@, start as int, next as int);
            match step_of(item, next as int) {
                Some(step) => {
                    assert(history@ == before.push(step));
                    assert(before.push(step) == head + done.push(step));
                },
                None => {},
            }
            if seen {
                let i = choose|i: int|
                    start <= i < next && #[trigger] rollout_items@[i] == (RolloutItem::Compacted {
                        has_replacement_history: false,
                    });
                assert(start <= i < next + 1 && rollout_items@[i] == (RolloutItem::Compacted {
                    has_replacement_history: false,
                }));
            }
        }
        next += 1;
    }
    RolloutReconstruction {
        history,
        previous_turn_settings: plan.previous_turn_settings,
        reference_context_item: if saw_legacy_compaction {
            None
        } else {
            plan.reference_context_item
        },
        window_generation: plan.window_generation,
    }
}

/// Plans the reconstruction of a rollout and lays out how its history is rebuilt.
pub fn reconstruct_history_from_rollout(rollout_items: &[RolloutItem]) -> (r: RolloutReconstruction)
    ensures
        ({
            let plan = reconstruction_plan(rollout_items@);
            &&& r.history@ == history_steps(rollout_items@, plan.base)
            &&& settings_of(r.previous_turn_settings) == plan.settings
            &&& position_of(r.reference_context_item) == (if has_legacy_compaction(
                rollout_items@,
                suffix_start(plan.base),
            ) {
                None
            } else {
                plan.reference
            })
            &&& r.window_generation == plan.window_generation
        }),
{
    let plan = reconstruct_rollout_plan(rollout_items);
    materialize_rollout_reconstruction(rollout_items, plan)
}

// ---------------------------------------------------------------------------
// Initial history
// ---------------------------------------------------------------------------
/// The recorded items of a resumed session.
#[derive(Debug)]
pub struct ResumedHistory {
    pub history: Vec<RolloutItem>,
}

/// Where the history of a session starts.
#[derive(Debug)]
pub enum InitialHistory {
    New,
    Cleared,
    Resumed(ResumedHistory),
    Forked(Vec<RolloutItem>),
}

/// The rollout behind an initial history.
pub open spec fn rollout_of(history: InitialHistory) -> Option<Seq<RolloutItem>> {
    match history {
        InitialHistory::Resumed(resumed) => Some(resumed.history@),
        InitialHistory::Forked(items) => Some(items@),
        InitialHistory::New | InitialHistory::Cleared => None,
    }
}

/// An initial history with the plan of its reconstruction.
#[derive(Debug)]
pub struct PreparedInitialHistory {
    history: InitialHistory,
    reconstruction_plan: Option<RolloutReconstructionPlan>,
}

impl PreparedInitialHistory {
    /// The history that was prepared.
    pub closed spec fn initial(self) -> InitialHistory {
        self.history
    }

    /// The plan of its reconstruction.
    pub closed spec fn plan(self) -> Option<Plan> {
        match self.reconstruction_plan {
            Some(plan) => Some(plan@),
            None => None,
        }
    }

    /// The plan is that of the history's rollout.
    pub open spec fn valid(self) -> bool {
        match rollout_of(self.initial()) {
            Some(items) => self.plan() == Some(reconstruction_plan(items)) && plan_fits(
                items,
                self.plan()->0,
            ),
            None => self.plan() is None,
        }
    }

    /// Plans the reconstruction of a resumed or forked history.
    pub fn new(history: InitialHistory) -> (r: Self)
        ensures
            r.initial() == history,
            r.valid(),
    {
        let reconstruction_plan = match &history {
            InitialHistory::Resumed(resumed) => Some(
                reconstruct_rollout_plan(resumed.history.as_slice()),
            ),
            InitialHistory::Forked(items) => Some(reconstruct_rollout_plan(items.as_slice())),
            InitialHistory::New => None,
            InitialHistory::Cleared => None,
        };
        PreparedInitialHistory { history, reconstruction_plan }
    }

    pub fn history(&self) -> (r: &InitialHistory)
        ensures
            *r == self.initial(),
    {
        &self.history
    }

    /// The number of compactions behind the context window, or zero for a
    /// history without a rollout.
    pub fn window_generation(&self) -> (r: u64)
        ensures
            r == (match self.plan() {
                Some(plan) => plan.window_generation,
                None => 0,
            }),
    {
        match &self.reconstruction_plan {
            Some(plan) => plan.window_generation,
            None => 0,
        }
    }

    pub fn into_parts(self) -> (r: (InitialHistory, Option<RolloutReconstructionPlan>))
        ensures
            r.0 == self.initial(),
            match r.1 {
                Some(plan) => self.plan() == Some(plan@),
                None => self.plan() is None,
            },
    {
        (self.history, self.reconstruction_plan)
    }
}

} // verus!
