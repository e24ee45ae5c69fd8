//! Laws of rollout reconstruction.

use vstd::prelude::*;

use crate::rollout;
use crate::rollout::EventMsg;
use crate::rollout::HistoryStep;
use crate::rollout::InitialHistory;
use crate::rollout::PreparedInitialHistory;
use crate::rollout::Replay;
use crate::rollout::RolloutItem;

verus! {

/// Whether `item` rolls user turns back; a rollback of no turns does not.
pub open spec fn is_rollback(item: RolloutItem) -> bool {
    item matches RolloutItem::EventMsg(EventMsg::ThreadRolledBack { num_turns }) && num_turns > 0
}

/// The number of compactions at the positions from `from` on.
pub open spec fn compactions_from(items: Seq<RolloutItem>, from: int) -> nat
    decreases items.len() - from,
{
    if from >= items.len() {
        0
    } else if items[from] is Compacted {
        compactions_from(items, from + 1) + 1
    } else {
        compactions_from(items, from + 1)
    }
}

/// The newest compaction with a replacement history from position `from` on.
pub open spec fn newest_base(items: Seq<RolloutItem>, from: int) -> Option<int>
    decreases items.len() - from,
{
    if from >= items.len() {
        None
    } else {
        match newest_base(items, from + 1) {
            Some(i) => Some(i),
            None => if rollout::is_base(items, from) {
                Some(from)
            } else {
                None
            },
        }
    }
}

proof fn lemma_compactions_bound(items: Seq<RolloutItem>, from: int)
    requires
        0 <= from <= items.len(),
    ensures
        compactions_from(items, from) <= items.len() - from,
    decreases items.len() - from,
{
    if from < items.len() {
        lemma_compactions_bound(items, from + 1);
    }
}

proof fn lemma_plain_replay(items: Seq<RolloutItem>, from: int)
    requires
        0 <= from <= items.len(),
        items.len() <= u64::MAX,
        forall|i: int| from <= i < items.len() ==> !is_rollback(#[trigger] items[i]),
    ensures
        ({
            let r = rollout::replay_from(items, from);
            let s = rollout::current(r);
            &&& r.pending == 0
            &&& r.window_generation + s.compactions == compactions_from(items, from)
            &&& newest_base(items, from) == (if r.base is Some {
                r.base
            } else {
                s.base
            })
        }),
    decreases items.len() - from,
{
    if from < items.len() {
        lemma_plain_replay(items, from + 1);
        lemma_compactions_bound(items, from);
        lemma_compactions_bound(items, from + 1);
        assert(!is_rollback(items[from]));
    }
}

/// Where no rollback takes a turn back, every compaction counts, and the history
/// base is the newest compaction that has a replacement history.
pub proof fn law_plain_rollout(items: Seq<RolloutItem>)
    requires
        items.len() <= u64::MAX,
        forall|i: int| 0 <= i < items.len() ==> !is_rollback(#[trigger] items[i]),
    ensures
        rollout::reconstruction_plan(items).window_generation == compactions_from(items, 0),
        rollout::reconstruction_plan(items).base == newest_base(items, 0),
{
    lemma_plain_replay(items, 0);
    lemma_compactions_bound(items, 0);
}

/// What newer turns have established no older item changes.
pub proof fn law_newest_wins(r: Replay, index: int, item: RolloutItem)
    ensures
        r.base is Some ==> rollout::replayed(r, index, item).base == r.base,
        r.settings is Some ==> rollout::replayed(r, index, item).settings == r.settings,
        !(r.reference is NeverSet) ==> rollout::replayed(r, index, item).reference == r.reference,
{
}

/// A rollback never adds compactions: no more are counted than were recorded.
pub proof fn law_window_generation_is_bounded(items: Seq<RolloutItem>)
    ensures
        rollout::reconstruction_plan(items).window_generation <= compactions_from(items, 0),
{
    lemma_window_bound(items, 0);
}

proof fn lemma_window_bound(items: Seq<RolloutItem>, from: int)
    requires
        0 <= from,
    ensures
        ({
            let r = rollout::replay_from(items, from);
            let s = rollout::current(r);
            &&& r.window_generation + s.compactions <= compactions_from(items, from)
            &&& s.compactions_before_user <= s.compactions <= u64::MAX
        }),
    decreases items.len() - from,
{
    if from < items.len() {
        lemma_window_bound(items, from + 1);
    }
}

// ---------------------------------------------------------------------------
// Rollback
// ---------------------------------------------------------------------------
/// The replay `r` continued over the positions from `from` up to `to`, newest first.
pub open spec fn replay_over(r: Replay, items: Seq<RolloutItem>, from: int, to: int) -> Replay
    decreases to - from,
{
    if to <= from {
        r
    } else {
        rollout::replayed(replay_over(r, items, from + 1, to), from, items[from])
    }
}

/// The turn id that `item` mentions.
pub open spec fn mentioned_id(item: RolloutItem) -> Option<Seq<char>> {
    match item {
        RolloutItem::TurnContext(ctx) => rollout::text_of(ctx.turn_id),
        RolloutItem::EventMsg(event) => match event {
            EventMsg::TurnComplete { turn_id } => Some(turn_id@),
            EventMsg::TurnAborted { turn_id } => rollout::text_of(turn_id),
            EventMsg::TurnStarted { turn_id } => Some(turn_id@),
            _ => None,
        },
        _ => None,
    }
}

/// Whether `item` makes its turn a user turn.
pub open spec fn marks_user_turn(item: RolloutItem) -> bool {
    match item {
        RolloutItem::ResponseItem { user_turn_boundary } => user_turn_boundary,
        RolloutItem::EventMsg(event) => event is UserMessage,
        _ => false,
    }
}

/// Whether `item` opens a turn.
pub open spec fn starts_turn(item: RolloutItem) -> bool {
    item matches RolloutItem::EventMsg(event) && event is TurnStarted
}

/// The positions from `from` up to `to` hold one whole user turn: its start
/// first, then items of this turn only, a user message among them.
pub open spec fn is_user_turn(items: Seq<RolloutItem>, from: int, to: int) -> bool {
    &&& 0 <= from < to <= items.len()
    &&& starts_turn(items[from])
    &&& forall|k: int|
        from < k < to ==> !starts_turn(#[trigger] items[k]) && !is_rollback(items[k])
            && rollout::compatible(mentioned_id(items[k]), mentioned_id(items[from]))
    &&& exists|k: int| from < k < to && marks_user_turn(#[trigger] items[k])
}

/// The positions from `cuts[0]` up to the end of the cuts hold user turns,
/// one between each cut and the next.
pub open spec fn are_user_turns(items: Seq<RolloutItem>, cuts: Seq<int>) -> bool {
    &&& cuts.len() >= 1
    &&& 0 <= cuts[0]
    &&& cuts.last() <= items.len()
    &&& forall|i: int|
        0 <= i < cuts.len() - 1 ==> is_user_turn(items, #[trigger] cuts[i], cuts[i + 1])
}

/// Equal but for the number of compactions counted.
pub open spec fn same_findings(a: Replay, b: Replay) -> bool {
    &&& a.base == b.base
    &&& a.settings == b.settings
    &&& a.reference == b.reference
    &&& a.pending == b.pending
    &&& a.active == b.active
}

proof fn lemma_same_findings(
    a: Replay,
    b: Replay,
    items: Seq<RolloutItem>,
    from: int,
    to: int,
)
    requires
        same_findings(a, b),
    ensures
        same_findings(replay_over(a, items, from, to), replay_over(b, items, from, to)),
    decreases to - from,
{
    if from < to {
        lemma_same_findings(a, b, items, from + 1, to);
    }
}

pub proof fn lemma_replay_over_all(items: Seq<RolloutItem>, from: int)
    requires
        0 <= from,
    ensures
        replay_over(rollout::fresh_replay(), items, from, items.len() as int)
            == rollout::replay_from(items, from),
    decreases items.len() - from,
{
    if from < items.len() {
        lemma_replay_over_all(items, from + 1);
    }
}

pub proof fn lemma_replay_over_split(
    r: Replay,
    items: Seq<RolloutItem>,
    from: int,
    mid: int,
    to: int,
)
    requires
        from <= mid <= to,
    ensures
        replay_over(r, items, from, to) == replay_over(
            replay_over(r, items, mid, to),
            items,
            from,
            mid,
        ),
    decreases mid - from,
{
    if from < mid {
        lemma_replay_over_split(r, items, from + 1, mid, to);
    }
}

pub proof fn lemma_replay_over_prefix(
    r: Replay,
    a: Seq<RolloutItem>,
    b: Seq<RolloutItem>,
    from: int,
    to: int,
)
    requires
        0 <= from,
        to <= a.len(),
        to <= b.len(),
        a.take(to) == b.take(to),
    ensures
        replay_over(r, a, from, to) == replay_over(r, b, from, to),
    decreases to - from,
{
    if from < to {
        lemma_replay_over_prefix(r, a, b, from + 1, to);
        assert(a.take(to)[from] == a[from]);
        assert(b.take(to)[from] == b[from]);
    }
}

/// Inside a turn that a rollback is going to swallow.
proof fn lemma_inside_turn(r: Replay, items: Seq<RolloutItem>, from: int, k: int, to: int)
    requires
        is_user_turn(items, from, to),
        from < k <= to,
        r.active is None,
        0 < r.pending <= usize::MAX,
    ensures
        ({
            let after = replay_over(r, items, k, to);
            let s = rollout::current(after);
            &&& same_findings(Replay { active: None, ..after }, r)
            &&& s.turn_id is Some ==> s.turn_id == mentioned_id(items[from])
            &&& (exists|i: int| k <= i < to && marks_user_turn(#[trigger] items[i]))
                ==> after.active is Some && s.counts_as_user_turn
        }),
    decreases to - k,
{
    if k < to {
        lemma_inside_turn(r, items, from, k + 1, to);
        let item = items[k];
        assert(!starts_turn(items[k]) && !is_rollback(items[k]));
        let before = replay_over(r, items, k + 1, to);
        let after = replay_over(r, items, k, to);
        if exists|i: int| k <= i < to && marks_user_turn(#[trigger] items[i]) {
            let i = choose|i: int| k <= i < to && marks_user_turn(#[trigger] items[i]);
            if i > k {
                assert(k + 1 <= i < to && marks_user_turn(items[i]));
            }
        }
    }
}

/// One swallowed user turn leaves no trace but its count.
proof fn lemma_swallow(r: Replay, items: Seq<RolloutItem>, from: int, to: int)
    requires
        is_user_turn(items, from, to),
        r.active is None,
        0 < r.pending <= usize::MAX,
    ensures
        same_findings(
            replay_over(r, items, from, to),
            Replay { pending: (r.pending - 1) as nat, ..r },
        ),
{
    lemma_inside_turn(r, items, from, from + 1, to);
    let k = choose|k: int| from < k < to && marks_user_turn(#[trigger] items[k]);
    assert(from + 1 <= k < to && marks_user_turn(items[k]));
    let before = replay_over(r, items, from + 1, to);
    assert(before.active is Some);
}

proof fn lemma_swallow_all(r: Replay, items: Seq<RolloutItem>, cuts: Seq<int>)
    requires
        are_user_turns(items, cuts),
        r.active is None,
        r.pending == cuts.len() - 1,
        r.pending <= usize::MAX,
    ensures
        cuts[0] <= cuts.last(),
        same_findings(
            replay_over(r, items, cuts[0], cuts.last()),
            Replay { pending: 0, ..r },
        ),
    decreases cuts.len(),
{
    if cuts.len() > 1 {
        let init = cuts.drop_last();
        let mid = init.last();
        let to = cuts.last();
        assert(mid == cuts[cuts.len() - 2]);
        assert(to == cuts[cuts.len() - 1]);
        assert(is_user_turn(items, cuts[cuts.len() - 2], cuts[cuts.len() - 2 + 1]));
        lemma_swallow(r, items, mid, to);
        let next = replay_over(r, items, mid, to);
        assert forall|i: int| 0 <= i < init.len() - 1 implies is_user_turn(
            items,
            #[trigger] init[i],
            init[i + 1],
        ) by {
            assert(init[i] == cuts[i] && init[i + 1] == cuts[i + 1]);
            assert(is_user_turn(items, cuts[i], cuts[i + 1]));
        }
        assert(init[0] == cuts[0]);
        lemma_swallow_all(next, items, init);
        lemma_replay_over_split(r, items, cuts[0], mid, to);
    }
}

/// Rolling back the newest user turns makes the plan find what it would find
/// without them: the base, the settings and the baseline are those of the
/// items before the rolled-back turns.
///
/// `items` ends with a rollback of as many user turns as stand between
/// `cuts[0]` and the rollback.
pub proof fn law_rollback_drops_user_turns(items: Seq<RolloutItem>, cuts: Seq<int>, num_turns: u32)
    requires
        are_user_turns(items, cuts),
        cuts.last() == items.len() - 1,
        items.last() == RolloutItem::EventMsg(EventMsg::ThreadRolledBack { num_turns }),
        num_turns == cuts.len() - 1,
    ensures
        ({
            let with = rollout::reconstruction_plan(items);
            let without = rollout::reconstruction_plan(items.take(cuts[0]));
            with.base == without.base && with.settings == without.settings && with.reference
                == without.reference
        }),
{
    let end = items.len() - 1;
    let older = items.take(cuts[0]);
    let fresh = rollout::fresh_replay();
    let r = replay_over(fresh, items, end, items.len() as int);
    assert(replay_over(fresh, items, end + 1, items.len() as int) == fresh);
    assert(r == rollout::replayed(fresh, end, items[end]));
    assert(r == Replay { pending: num_turns as nat, ..fresh });
    lemma_swallow_all(r, items, cuts);
    lemma_replay_over_all(items, 0);
    lemma_replay_over_split(fresh, items, 0, end, items.len() as int);
    lemma_replay_over_split(r, items, 0, cuts[0], end);
    let swallowed = replay_over(r, items, cuts[0], end);
    lemma_same_findings(swallowed, fresh, items, 0, cuts[0]);
    assert(items.take(cuts[0]) == older.take(cuts[0]));
    lemma_replay_over_prefix(fresh, items, older, 0, cuts[0]);
    lemma_replay_over_all(older, 0);
}

// ---------------------------------------------------------------------------
// History
// ---------------------------------------------------------------------------
/// The history that `steps` build on `start`, where `apply` says what one step does.
pub open spec fn build<H>(start: H, steps: Seq<HistoryStep>, apply: spec_fn(H, HistoryStep) -> H) -> H
    decreases steps.len(),
{
    if steps.len() == 0 {
        start
    } else {
        apply(build(start, steps.drop_last(), apply), steps.last())
    }
}

/// A replacement does not look at the history it replaces.
pub open spec fn replaces<H>(apply: spec_fn(H, HistoryStep) -> H) -> bool {
    forall|a: H, b: H, i: usize|
        #![trigger apply(a, HistoryStep::Replace(i)), apply(b, HistoryStep::Replace(i))]
        apply(a, HistoryStep::Replace(i)) == apply(b, HistoryStep::Replace(i))
}

proof fn lemma_build_concat<H>(
    start: H,
    a: Seq<HistoryStep>,
    b: Seq<HistoryStep>,
    apply: spec_fn(H, HistoryStep) -> H,
)
    ensures
        build(start, a + b, apply) == build(build(start, a, apply), b, apply),
    decreases b.len(),
{
    if b.len() == 0 {
        assert(a + b == a);
    } else {
        assert((a + b).drop_last() == a + b.drop_last());
        assert((a + b).last() == b.last());
        lemma_build_concat(start, a, b.drop_last(), apply);
    }
}

proof fn lemma_steps_split(items: Seq<RolloutItem>, from: int, mid: int, to: int)
    requires
        from <= mid <= to,
    ensures
        rollout::steps_between(items, from, to) == rollout::steps_between(items, from, mid)
            + rollout::steps_between(items, mid, to),
    decreases to - mid,
{
    let left = rollout::steps_between(items, from, mid);
    if mid < to {
        lemma_steps_split(items, from, mid, to - 1);
        let right = rollout::steps_between(items, mid, to - 1);
        match rollout::step_of(items[to - 1], to - 1) {
            Some(step) => {
                assert((left + right).push(step) == left + right.push(step));
            },
            None => {},
        }
    } else {
        assert(left + rollout::steps_between(items, mid, to) == left);
    }
}

/// Starting from the base gives the history that replaying the whole rollout
/// would give: a replacement history makes everything before it irrelevant.
pub proof fn law_base_is_complete<H>(
    start: H,
    items: Seq<RolloutItem>,
    base: int,
    apply: spec_fn(H, HistoryStep) -> H,
)
    requires
        rollout::is_base(items, base),
        replaces(apply),
    ensures
        build(start, rollout::history_steps(items, Some(base)), apply) == build(
            start,
            rollout::history_steps(items, None),
            apply,
        ),
{
    let end = items.len() as int;
    let tail = rollout::steps_between(items, base + 1, end);
    let replace = HistoryStep::Replace(base as usize);
    lemma_steps_split(items, 0, base + 1, end);
    let head = rollout::steps_between(items, 0, base);
    assert(rollout::steps_between(items, 0, base + 1) == head.push(replace));
    lemma_build_concat(start, seq![replace], tail, apply);
    lemma_build_concat(start, head.push(replace), tail, apply);
    assert(seq![replace].drop_last() == Seq::<HistoryStep>::empty());
    assert(head.push(replace).drop_last() == head);
    assert(build(start, seq![replace], apply) == apply(start, replace)) by {
        assert(build(start, seq![replace].drop_last(), apply) == start);
    }
    assert(build(start, head.push(replace), apply) == apply(build(start, head, apply), replace));
    assert(apply(start, replace) == apply(build(start, head, apply), replace));
}

proof fn lemma_steps_prefix(a: Seq<RolloutItem>, b: Seq<RolloutItem>, from: int, to: int)
    requires
        0 <= from,
        to <= a.len(),
        to <= b.len(),
        forall|k: int| 0 <= k < to ==> a[k] == b[k],
    ensures
        rollout::steps_between(a, from, to) == rollout::steps_between(b, from, to),
    decreases to - from,
{
    if from < to {
        lemma_steps_prefix(a, b, from, to - 1);
    }
}

/// A rollout that goes on adds to the history what its new item does, at the end:
/// a response item is recorded, whoever it is from; a compaction replaces the
/// history or has it rebuilt; a rollback drops user turns; nothing else changes
/// the history.
pub proof fn law_history_goes_on(items: Seq<RolloutItem>, next: RolloutItem, base: Option<int>)
    requires
        base matches Some(i) ==> 0 <= i < items.len(),
    ensures
        ({
            let history = rollout::history_steps(items, base);
            let at = items.len() as usize;
            rollout::history_steps(items.push(next), base) == (match next {
                RolloutItem::ResponseItem { user_turn_boundary: _ } => history.push(
                    HistoryStep::Record(at),
                ),
                RolloutItem::Compacted { has_replacement_history: true } => history.push(
                    HistoryStep::Replace(at),
                ),
                RolloutItem::Compacted { has_replacement_history: false } => history.push(
                    HistoryStep::RebuildFromSummary(at),
                ),
                RolloutItem::EventMsg(EventMsg::ThreadRolledBack { num_turns }) => history.push(
                    HistoryStep::DropLastUserTurns(num_turns),
                ),
                _ => history,
            })
        }),
{
    let longer = items.push(next);
    let end = items.len() as int;
    let from = rollout::suffix_start(base);
    lemma_steps_prefix(items, longer, from, end);
    let before = rollout::steps_between(items, from, end);
    let after = rollout::steps_between(longer, from, end + 1);
    assert(longer[end] == next);
    match base {
        Some(i) => {
            let head = seq![HistoryStep::Replace(i as usize)];
            assert(rollout::history_steps(items, base) == head + before);
            assert(rollout::history_steps(longer, base) == head + after);
            match rollout::step_of(next, end) {
                Some(step) => {
                    assert(head + before.push(step) == (head + before).push(step));
                },
                None => {},
            }
        },
        None => {},
    }
}

/// A history starts empty, or with the replacement history of the base and nothing
/// from before it.
pub proof fn law_history_starts_at_the_base(items: Seq<RolloutItem>)
    ensures
        rollout::history_steps(Seq::empty(), None) == Seq::<HistoryStep>::empty(),
        items.len() > 0 ==> rollout::history_steps(items, Some(items.len() - 1)) == seq![
            HistoryStep::Replace((items.len() - 1) as usize),
        ],
{
    if items.len() > 0 {
        let n = items.len() as int;
        assert(rollout::steps_between(items, n, n) == Seq::<HistoryStep>::empty());
        assert(rollout::history_steps(items, Some(n - 1)) =~= seq![
            HistoryStep::Replace((n - 1) as usize),
        ]);
    }
}

/// The position of the item that a step is about, if it tells.
pub open spec fn step_position(step: HistoryStep) -> Option<int> {
    match step {
        HistoryStep::Record(i) => Some(i as int),
        HistoryStep::Replace(i) => Some(i as int),
        HistoryStep::RebuildFromSummary(i) => Some(i as int),
        HistoryStep::DropLastUserTurns(_) => None,
    }
}

proof fn lemma_steps_complete(items: Seq<RolloutItem>, from: int, to: int)
    requires
        0 <= from,
        to <= items.len() <= usize::MAX,
    ensures
        ({
            let steps = rollout::steps_between(items, from, to);
            &&& forall|i: int|
                from <= i < to && (#[trigger] items[i]) is ResponseItem ==> steps.contains(
                    HistoryStep::Record(i as usize),
                )
            &&& forall|i: int|
                from <= i < to && #[trigger] items[i] == (RolloutItem::Compacted {
                    has_replacement_history: true,
                }) ==> steps.contains(HistoryStep::Replace(i as usize))
            &&& forall|i: int|
                from <= i < to && #[trigger] items[i] == (RolloutItem::Compacted {
                    has_replacement_history: false,
                }) ==> steps.contains(HistoryStep::RebuildFromSummary(i as usize))
            &&& forall|k: int|
                0 <= k < steps.len() ==> (step_position(#[trigger] steps[k]) matches Some(p) ==> from
                    <= p < to)
            &&& forall|j: int, k: int|
                0 <= j < k < steps.len() && step_position(#[trigger] steps[j]) is Some
                    && step_position(#[trigger] steps[k]) is Some ==> step_position(steps[j])->0
                    < step_position(steps[k])->0
        }),
    decreases to - from,
{
    if from < to {
        lemma_steps_complete(items, from, to - 1);
        let before = rollout::steps_between(items, from, to - 1);
        let steps = rollout::steps_between(items, from, to);
        assert forall|step: HistoryStep| before.contains(step) implies steps.contains(step) by {
            let k = before.index_of(step);
            assert(steps[k] == step);
        }
        match rollout::step_of(items[to - 1], to - 1) {
            Some(step) => {
                assert(steps[steps.len() - 1] == step);
                assert(steps.contains(step));
            },
            None => {},
        }
    }
}

/// Every response item after the base is recorded, whether or not it starts a user
/// turn, and every compaction after the base has its step. The steps stand in the
/// order of the items they come from.
pub proof fn law_history_is_complete_and_ordered(items: Seq<RolloutItem>, base: Option<int>)
    requires
        items.len() <= usize::MAX,
        base matches Some(i) ==> 0 <= i < items.len(),
    ensures
        ({
            let history = rollout::history_steps(items, base);
            let start = match base {
                Some(i) => i + 1,
                None => 0,
            };
            &&& forall|i: int|
                start <= i < items.len() && (#[trigger] items[i]) is ResponseItem
                    ==> history.contains(HistoryStep::Record(i as usize))
            &&& forall|i: int|
                start <= i < items.len() && #[trigger] items[i] == (RolloutItem::Compacted {
                    has_replacement_history: true,
                }) ==> history.contains(HistoryStep::Replace(i as usize))
            &&& forall|i: int|
                start <= i < items.len() && #[trigger] items[i] == (RolloutItem::Compacted {
                    has_replacement_history: false,
                }) ==> history.contains(HistoryStep::RebuildFromSummary(i as usize))
            &&& base matches Some(i) ==> history.len() > 0 && history[0] == HistoryStep::Replace(
                i as usize,
            )
            &&& forall|j: int, k: int|
                0 <= j < k < history.len() && step_position(#[trigger] history[j]) is Some
                    && step_position(#[trigger] history[k]) is Some ==> step_position(history[j])->0
                    < step_position(history[k])->0
        }),
{
    let history = rollout::history_steps(items, base);
    let start = match base {
        Some(i) => i + 1,
        None => 0,
    };
    let end = items.len() as int;
    let steps = rollout::steps_between(items, start, end);
    lemma_steps_complete(items, start, end);
    let head = match base {
        Some(i) => seq![HistoryStep::Replace(i as usize)],
        None => Seq::empty(),
    };
    assert(history =~= head + steps);
    assert forall|step: HistoryStep| steps.contains(step) implies history.contains(step) by {
        let k = steps.index_of(step);
        assert(history[k + head.len()] == step);
    }
    assert forall|j: int, k: int|
        0 <= j < k < history.len() && step_position(#[trigger] history[j]) is Some && step_position(
            #[trigger] history[k],
        ) is Some implies step_position(history[j])->0 < step_position(history[k])->0 by {
        assert(history[k] == steps[k - head.len()]);
        if j >= head.len() {
            assert(history[j] == steps[j - head.len()]);
        }
    }
}

/// A compaction without a replacement history anywhere after the base drops the
/// baseline context, and nothing else does.
pub proof fn law_legacy_compactions_count(items: Seq<RolloutItem>, base: Option<int>)
    ensures
        ({
            let dropped = rollout::has_legacy_compaction(items, rollout::suffix_start(base));
            let start = match base {
                Some(i) => i + 1,
                None => 0,
            };
            &&& forall|i: int|
                start <= i < items.len() && #[trigger] items[i] == (RolloutItem::Compacted {
                    has_replacement_history: false,
                }) ==> dropped
            &&& (forall|i: int|
                start <= i < items.len() ==> #[trigger] items[i] != (RolloutItem::Compacted {
                    has_replacement_history: false,
                })) ==> !dropped
        }),
{
}

// ---------------------------------------------------------------------------
// Initial histories
// ---------------------------------------------------------------------------
/// A resumed or forked history is prepared with the plan of all its items; a new or
/// cleared one has nothing to plan.
pub proof fn law_prepared_histories(prepared: PreparedInitialHistory)
    requires
        prepared.valid(),
    ensures
        prepared.initial() matches InitialHistory::Resumed(resumed) ==> prepared.plan() == Some(
            rollout::reconstruction_plan(resumed.history@),
        ),
        prepared.initial() matches InitialHistory::Forked(items) ==> prepared.plan() == Some(
            rollout::reconstruction_plan(items@),
        ),
        prepared.initial() is New || prepared.initial() is Cleared ==> prepared.plan() is None,
{
}

} // verus!
