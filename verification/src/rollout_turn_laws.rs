//! What the newest turn of a rollout does to its reconstruction.

use vstd::prelude::*;

use crate::rollout;
use crate::rollout::EventMsg;
use crate::rollout::Plan;
use crate::rollout::Replay;
use crate::rollout::RolloutItem;
use crate::rollout::Settings;
use crate::rollout::TurnReferenceContextItem;
use crate::rollout_laws;

verus! {

// ---------------------------------------------------------------------------
// Turns
// ---------------------------------------------------------------------------
/// Whether `item` tells that its turn is the turn `id`.
pub open spec fn names_turn(item: RolloutItem, id: Seq<char>) -> bool {
    match item {
        RolloutItem::TurnContext(ctx) => ctx.turn_id matches Some(t) && t@ == id,
        RolloutItem::EventMsg(EventMsg::TurnComplete { turn_id }) => turn_id@ == id,
        RolloutItem::EventMsg(EventMsg::TurnAborted { turn_id }) => turn_id matches Some(t) && t@
            == id,
        _ => false,
    }
}

/// Whether `item` may stand in the turn `id` before anything newer has named
/// the turn: it starts no turn and names no other.
pub open spec fn suits_turn(item: RolloutItem, id: Seq<char>) -> bool {
    match item {
        RolloutItem::TurnContext(ctx) => ctx.turn_id matches Some(t) ==> t@ == id,
        RolloutItem::EventMsg(EventMsg::TurnComplete { turn_id }) => turn_id@ == id,
        RolloutItem::EventMsg(EventMsg::TurnAborted { turn_id }) => turn_id matches Some(t) ==> t@
            == id,
        RolloutItem::EventMsg(EventMsg::TurnStarted { .. }) => false,
        _ => true,
    }
}

/// The positions from `from` up to `to` hold items that are replayed as part of
/// the turn `id`: nothing is rolled back, the turn does not start among them, and
/// what belongs to another turn comes before something that names this one.
pub open spec fn is_turn_body(items: Seq<RolloutItem>, from: int, to: int, id: Seq<char>) -> bool {
    &&& 0 <= from <= to <= items.len()
    &&& forall|k: int|
        #![trigger items[k]]
        from <= k < to ==> {
            &&& !(items[k] matches RolloutItem::EventMsg(EventMsg::ThreadRolledBack { num_turns })
                && num_turns > 0)
            &&& !(items[k] matches RolloutItem::EventMsg(EventMsg::TurnStarted { turn_id })
                && turn_id@ == id)
            &&& suits_turn(items[k], id) || exists|j: int|
                k < j < to && names_turn(#[trigger] items[j], id)
        }
}

/// The positions from `from` up to `to` hold the turn `id`, from its start on.
pub open spec fn is_turn(items: Seq<RolloutItem>, from: int, to: int, id: Seq<char>) -> bool {
    &&& 0 <= from < to <= items.len()
    &&& items[from] matches RolloutItem::EventMsg(EventMsg::TurnStarted { turn_id }) && turn_id@
        == id
    &&& is_turn_body(items, from + 1, to, id)
}

/// Whether the user speaks at position `k`.
pub open spec fn is_user_input(items: Seq<RolloutItem>, k: int) -> bool {
    match items[k] {
        RolloutItem::ResponseItem { user_turn_boundary } => user_turn_boundary,
        RolloutItem::EventMsg(EventMsg::UserMessage) => true,
        _ => false,
    }
}

/// Whether the user speaks at one of the positions from `from` up to `to`.
pub open spec fn has_user_input(items: Seq<RolloutItem>, from: int, to: int) -> bool {
    exists|k: int| from <= k < to && #[trigger] is_user_input(items, k)
}

/// Whether a context of the turn `id` stands at position `k`.
pub open spec fn is_own_context(items: Seq<RolloutItem>, k: int, id: Seq<char>) -> bool {
    items[k] matches RolloutItem::TurnContext(ctx) && (ctx.turn_id matches Some(t) ==> t@ == id)
}

/// Whether the baseline is set or dropped at position `k` in the turn `id`.
pub open spec fn touches_baseline(items: Seq<RolloutItem>, k: int, id: Seq<char>) -> bool {
    items[k] is Compacted || is_own_context(items, k, id)
}

/// The settings in the turn context at position `k`.
pub open spec fn settings_at(items: Seq<RolloutItem>, k: int) -> Option<Settings> {
    match items[k] {
        RolloutItem::TurnContext(ctx) => Some(
            Settings { model: ctx.model@, realtime_active: ctx.realtime_active },
        ),
        _ => None,
    }
}

/// The number of compactions at the positions from `from` up to `to`.
pub open spec fn compactions_in(items: Seq<RolloutItem>, from: int, to: int) -> nat
    decreases to - from,
{
    if from >= to {
        0
    } else {
        compactions_in(items, from + 1, to) + (if items[from] is Compacted {
            1nat
        } else {
            0nat
        })
    }
}

/// The number of compactions at the positions from `from` up to `to` that come
/// before the last words of the user.
pub open spec fn compactions_before_input(items: Seq<RolloutItem>, from: int, to: int) -> nat
    decreases to - from,
{
    if from >= to {
        0
    } else {
        compactions_before_input(items, from + 1, to) + (if items[from] is Compacted
            && has_user_input(items, from + 1, to) {
            1nat
        } else {
            0nat
        })
    }
}

proof fn lemma_counts(items: Seq<RolloutItem>, from: int, to: int)
    requires
        from <= to,
    ensures
        compactions_before_input(items, from, to) <= compactions_in(items, from, to) <= to - from,
    decreases to - from,
{
    if from < to {
        lemma_counts(items, from + 1, to);
    }
}

// ---------------------------------------------------------------------------
// The newest and the oldest of their kind
// ---------------------------------------------------------------------------
spec fn newest(from: int, to: int, is: spec_fn(int) -> bool) -> Option<int>
    decreases to - from,
{
    if from >= to {
        None
    } else {
        match newest(from + 1, to, is) {
            Some(k) => Some(k),
            None => if is(from) {
                Some(from)
            } else {
                None
            },
        }
    }
}

spec fn oldest(from: int, to: int, is: spec_fn(int) -> bool) -> Option<int>
    decreases to - from,
{
    if from >= to {
        None
    } else if is(from) {
        Some(from)
    } else {
        oldest(from + 1, to, is)
    }
}

proof fn lemma_newest(from: int, to: int, is: spec_fn(int) -> bool)
    ensures
        match newest(from, to, is) {
            Some(p) => from <= p < to && is(p) && forall|k: int| p < k < to ==> !#[trigger] is(k),
            None => forall|k: int| from <= k < to ==> !#[trigger] is(k),
        },
    decreases to - from,
{
    if from < to {
        lemma_newest(from + 1, to, is);
    }
}

proof fn lemma_oldest(from: int, to: int, is: spec_fn(int) -> bool)
    ensures
        match oldest(from, to, is) {
            Some(p) => from <= p < to && is(p) && forall|k: int| from <= k < p ==> !#[trigger] is(k),
            None => forall|k: int| from <= k < to ==> !#[trigger] is(k),
        },
    decreases to - from,
{
    if from < to {
        lemma_oldest(from + 1, to, is);
    }
}

// ---------------------------------------------------------------------------
// Replaying one turn
// ---------------------------------------------------------------------------
spec fn baseline_at(items: Seq<RolloutItem>, k: Option<int>) -> TurnReferenceContextItem {
    match k {
        Some(p) => if items[p] is Compacted {
            TurnReferenceContextItem::Cleared
        } else {
            TurnReferenceContextItem::Latest(p as usize)
        },
        None => TurnReferenceContextItem::NeverSet,
    }
}

spec fn named(items: Seq<RolloutItem>, from: int, to: int, id: Seq<char>) -> bool {
    exists|j: int| from <= j < to && names_turn(#[trigger] items[j], id)
}

/// What has been gathered of a turn after the items from `k` on.
spec fn gathered(
    r: Replay,
    after: Replay,
    items: Seq<RolloutItem>,
    k: int,
    to: int,
    id: Seq<char>,
) -> bool {
    let s = rollout::current(after);
    &&& Replay { active: None, ..after } == r
    &&& s.turn_id == (if named(items, k, to, id) {
        Some(id)
    } else {
        None
    })
    &&& s.counts_as_user_turn == has_user_input(items, k, to)
    &&& s.compactions == compactions_in(items, k, to)
    &&& s.compactions_before_user == compactions_before_input(items, k, to)
    &&& s.base == (if r.base is None {
        newest(k, to, |p: int| rollout::is_base(items, p))
    } else {
        None
    })
    &&& s.settings == (if r.settings is None {
        match oldest(k, to, |p: int| is_own_context(items, p, id)) {
            Some(p) => settings_at(items, p),
            None => None,
        }
    } else {
        None
    })
    &&& s.reference == (if r.reference is NeverSet {
        baseline_at(items, newest(k, to, |p: int| touches_baseline(items, p, id)))
    } else {
        TurnReferenceContextItem::NeverSet
    })
}

proof fn lemma_body(r: Replay, items: Seq<RolloutItem>, k: int, from: int, to: int, id: Seq<char>)
    requires
        is_turn_body(items, from, to, id),
        from <= k <= to,
        items.len() <= usize::MAX,
        r.active is None,
        r.pending <= usize::MAX,
    ensures
        gathered(r, rollout_laws::replay_over(r, items, k, to), items, k, to, id),
    decreases to - k,
{
    if k < to {
        lemma_body(r, items, k + 1, from, to, id);
        lemma_counts(items, k, to);
        lemma_counts(items, k + 1, to);
        let before = rollout_laws::replay_over(r, items, k + 1, to);
        let after = rollout_laws::replay_over(r, items, k, to);
        let item = items[k];
        assert(after == rollout::replayed(before, k, item));
        assert(has_user_input(items, k, to) == (is_user_input(items, k) || has_user_input(
            items,
            k + 1,
            to,
        ))) by {
            if has_user_input(items, k + 1, to) {
                let j = choose|j: int| k + 1 <= j < to && #[trigger] is_user_input(items, j);
                assert(k <= j < to && is_user_input(items, j));
            }
        }
        assert(named(items, k, to, id) == (names_turn(item, id) || named(items, k + 1, to, id)))
            by {
            if named(items, k + 1, to, id) {
                let j = choose|j: int| k + 1 <= j < to && names_turn(#[trigger] items[j], id);
                assert(k <= j < to && names_turn(items[j], id));
            }
        }
        assert(suits_turn(item, id) || named(items, k + 1, to, id)) by {
            if !suits_turn(items[k], id) {
                let j = choose|j: int| k < j < to && names_turn(#[trigger] items[j], id);
                assert(k + 1 <= j < to && names_turn(items[j], id));
            }
        }
        let bases = |p: int| rollout::is_base(items, p);
        let own = |p: int| is_own_context(items, p, id);
        let touches = |p: int| touches_baseline(items, p, id);
        assert(newest(k, to, bases) == (match newest(k + 1, to, bases) {
            Some(p) => Some(p),
            None => if bases(k) {
                Some(k)
            } else {
                None
            },
        }));
        assert(newest(k, to, touches) == (match newest(k + 1, to, touches) {
            Some(p) => Some(p),
            None => if touches(k) {
                Some(k)
            } else {
                None
            },
        }));
        assert(oldest(k, to, own) == (if own(k) {
            Some(k)
        } else {
            oldest(k + 1, to, own)
        }));
        lemma_newest(k + 1, to, touches);
        match item {
            RolloutItem::SessionMeta => {},
            RolloutItem::ResponseItem { .. } => {},
            RolloutItem::Compacted { .. } => {},
            RolloutItem::TurnContext(ctx) => {},
            RolloutItem::EventMsg(event) => match event {
                EventMsg::ThreadRolledBack { num_turns } => {},
                EventMsg::TurnStarted { turn_id } => {},
                _ => {},
            },
        }
    }
}

// ---------------------------------------------------------------------------
// What older items add
// ---------------------------------------------------------------------------
/// `a` is the replay that continues `r` where `b` starts afresh: what `r` has
/// found stands, and `b` fills in the rest.
spec fn continues(r: Replay, a: Replay, b: Replay) -> bool {
    let s = rollout::current(a);
    let t = rollout::current(b);
    &&& a.active is Some == b.active is Some
    &&& a.pending == b.pending
    &&& a.window_generation == r.window_generation + b.window_generation
    &&& a.base == (if r.base is Some {
        r.base
    } else {
        b.base
    })
    &&& a.settings == (if r.settings is Some {
        r.settings
    } else {
        b.settings
    })
    &&& a.reference == (if r.reference is NeverSet {
        b.reference
    } else {
        r.reference
    })
    &&& s.turn_id == t.turn_id
    &&& s.counts_as_user_turn == t.counts_as_user_turn
    &&& s.compactions == t.compactions
    &&& s.compactions_before_user == t.compactions_before_user
    &&& s.base == (if r.base is Some {
        None
    } else {
        t.base
    })
    &&& s.settings == (if r.settings is Some {
        None
    } else {
        t.settings
    })
    &&& s.reference == (if r.reference is NeverSet {
        t.reference
    } else {
        TurnReferenceContextItem::NeverSet
    })
    &&& t.compactions_before_user <= t.compactions
}

proof fn lemma_continues_item(r: Replay, a: Replay, b: Replay, index: int, item: RolloutItem)
    requires
        continues(r, a, b),
        r.window_generation + b.window_generation + rollout::current(b).compactions < u64::MAX,
        !(item is EventMsg),
    ensures
        continues(r, rollout::replayed(a, index, item), rollout::replayed(b, index, item)),
        rollout::replayed(b, index, item).window_generation == b.window_generation,
        rollout::current(rollout::replayed(b, index, item)).compactions <= rollout::current(
            b,
        ).compactions + 1,
{
    match item {
        RolloutItem::SessionMeta => {},
        RolloutItem::ResponseItem { .. } => {},
        RolloutItem::Compacted { .. } => {},
        RolloutItem::TurnContext(_) => {},
        RolloutItem::EventMsg(_) => {},
    }
}

proof fn lemma_continues_event(r: Replay, a: Replay, b: Replay, index: int, event: EventMsg)
    requires
        continues(r, a, b),
        r.window_generation + b.window_generation + rollout::current(b).compactions < u64::MAX,
    ensures
        ({
            let item = RolloutItem::EventMsg(event);
            let c = rollout::replayed(b, index, item);
            &&& continues(r, rollout::replayed(a, index, item), c)
            &&& c.window_generation + rollout::current(c).compactions <= b.window_generation
                + rollout::current(b).compactions
        }),
{
    match event {
        EventMsg::ThreadRolledBack { .. } => {},
        EventMsg::TurnComplete { .. } => {},
        EventMsg::TurnAborted { .. } => {},
        EventMsg::TurnStarted { .. } => {
            if b.active is Some {
                lemma_continues_close(r, a, b);
            }
        },
        EventMsg::UserMessage => {},
        EventMsg::Other => {},
    }
}

proof fn lemma_continues_close(r: Replay, a: Replay, b: Replay)
    requires
        continues(r, a, b),
        r.window_generation + b.window_generation + rollout::current(b).compactions <= u64::MAX,
    ensures
        ({
            let c = rollout::closed_replay(b);
            &&& continues(r, rollout::closed_replay(a), c)
            &&& c.window_generation + rollout::current(c).compactions <= b.window_generation
                + rollout::current(b).compactions
        }),
{
}

proof fn lemma_continues(r: Replay, items: Seq<RolloutItem>, k: int, to: int)
    requires
        0 <= k <= to <= items.len(),
        items.len() <= usize::MAX,
        r.active is None,
        r.pending == 0,
        r.window_generation + to <= u64::MAX,
    ensures
        ({
            let a = rollout_laws::replay_over(r, items, k, to);
            let b = rollout_laws::replay_over(rollout::fresh_replay(), items, k, to);
            &&& continues(r, a, b)
            &&& b.window_generation + rollout::current(b).compactions <= to - k
        }),
    decreases to - k,
{
    if k < to {
        lemma_continues(r, items, k + 1, to);
        let a = rollout_laws::replay_over(r, items, k + 1, to);
        let b = rollout_laws::replay_over(rollout::fresh_replay(), items, k + 1, to);
        match items[k] {
            RolloutItem::EventMsg(event) => lemma_continues_event(r, a, b, k, event),
            _ => lemma_continues_item(r, a, b, k, items[k]),
        }
    }
}

/// The plan of a rollout whose newest part, from `from` on, has left `r`.
proof fn lemma_plan_continues(r: Replay, items: Seq<RolloutItem>, from: int)
    requires
        0 <= from <= items.len() <= usize::MAX,
        r == rollout_laws::replay_over(
            rollout::fresh_replay(),
            items,
            from,
            items.len() as int,
        ),
        r.active is None,
        r.pending == 0,
        r.window_generation + from <= u64::MAX,
    ensures
        ({
            let plan = rollout::reconstruction_plan(items);
            let older = rollout::reconstruction_plan(items.take(from));
            &&& plan.window_generation == r.window_generation + older.window_generation
            &&& plan.base == (if r.base is Some {
                r.base
            } else {
                older.base
            })
            &&& plan.settings == (if r.settings is Some {
                r.settings
            } else {
                older.settings
            })
            &&& plan.reference == (match r.reference {
                TurnReferenceContextItem::NeverSet => older.reference,
                TurnReferenceContextItem::Cleared => None,
                TurnReferenceContextItem::Latest(p) => Some(p as int),
            })
        }),
{
    let fresh = rollout::fresh_replay();
    let end = items.len() as int;
    let older = items.take(from);
    rollout_laws::lemma_replay_over_all(items, 0);
    rollout_laws::lemma_replay_over_split(fresh, items, 0, from, end);
    lemma_continues(r, items, 0, from);
    lemma_continues_close(
        r,
        rollout_laws::replay_over(r, items, 0, from),
        rollout_laws::replay_over(fresh, items, 0, from),
    );
    assert(items.take(from) == older.take(from));
    rollout_laws::lemma_replay_over_prefix(fresh, items, older, 0, from);
    rollout_laws::lemma_replay_over_all(older, 0);
}

/// The replay of a whole turn, from its start on.
proof fn lemma_turn(r: Replay, items: Seq<RolloutItem>, from: int, to: int, id: Seq<char>)
    requires
        is_turn(items, from, to, id),
        items.len() <= usize::MAX,
        r.active is None,
        r.pending <= usize::MAX,
    ensures
        ({
            let body = rollout_laws::replay_over(r, items, from + 1, to);
            &&& gathered(r, body, items, from + 1, to, id)
            &&& rollout_laws::replay_over(r, items, from, to) == rollout::closed_replay(body)
        }),
{
    lemma_body(r, items, from + 1, from + 1, to, id);
}

/// `plan` is what the turn `id` at the positions from `from` on makes of `older`,
/// the plan of everything before it.
///
/// - Every compaction of the turn counts.
/// - The newest replacement history of the turn is the base; without one the base
///   is the older one.
/// - If the user speaks in the turn, the settings are those of its oldest context;
///   otherwise, or without a context, they are the older ones.
/// - If the newest item of the turn that touches the baseline is a compaction,
///   there is no baseline, whether or not the user speaks. If it is a context and
///   the user speaks, that context is the baseline. In all other cases the
///   baseline is the older one.
pub open spec fn turn_decides(
    items: Seq<RolloutItem>,
    from: int,
    id: Seq<char>,
    older: Plan,
    plan: Plan,
) -> bool {
    let end = items.len() as int;
    let user = has_user_input(items, from, end);
    &&& plan.window_generation == older.window_generation + compactions_in(items, from, end)
    &&& forall|p: int|
        from <= p < end && #[trigger] items[p] == (RolloutItem::Compacted {
            has_replacement_history: true,
        }) && (forall|k: int|
            p < k < end ==> #[trigger] items[k] != (RolloutItem::Compacted {
                has_replacement_history: true,
            })) ==> plan.base == Some(p)
    &&& (forall|k: int|
        from <= k < end ==> #[trigger] items[k] != (RolloutItem::Compacted {
            has_replacement_history: true,
        })) ==> plan.base == older.base
    &&& forall|p: int|
        user && from <= p < end && #[trigger] is_own_context(items, p, id) && (forall|k: int|
            from <= k < p ==> !#[trigger] is_own_context(items, k, id)) ==> plan.settings
            == settings_at(items, p)
    &&& (!user || forall|k: int| from <= k < end ==> !#[trigger] is_own_context(items, k, id))
        ==> plan.settings == older.settings
    &&& forall|p: int|
        from <= p < end && #[trigger] touches_baseline(items, p, id) && (forall|k: int|
            p < k < end ==> !#[trigger] touches_baseline(items, k, id)) ==> plan.reference == (
        if items[p] is Compacted {
            None
        } else if user {
            Some(p)
        } else {
            older.reference
        })
    &&& (forall|k: int| from <= k < end ==> !#[trigger] touches_baseline(items, k, id))
        ==> plan.reference == older.reference
}

/// Whether `plan` is made of what the positions from `from` on hold and of `older`.
spec fn is_made_of(items: Seq<RolloutItem>, from: int, id: Seq<char>, older: Plan, plan: Plan) -> bool {
    let end = items.len() as int;
    let user = has_user_input(items, from, end);
    let base = newest(from, end, |p: int| rollout::is_base(items, p));
    let own = oldest(from, end, |p: int| is_own_context(items, p, id));
    let touched = newest(from, end, |p: int| touches_baseline(items, p, id));
    &&& plan.window_generation == older.window_generation + compactions_in(items, from, end)
    &&& plan.base == (if base is Some {
        base
    } else {
        older.base
    })
    &&& plan.settings == (if user && own is Some {
        settings_at(items, own->0)
    } else {
        older.settings
    })
    &&& plan.reference == (match touched {
        Some(p) => if items[p] is Compacted {
            None
        } else if user {
            Some(p)
        } else {
            older.reference
        },
        None => older.reference,
    })
}

proof fn lemma_decides(items: Seq<RolloutItem>, from: int, id: Seq<char>, older: Plan, plan: Plan)
    requires
        0 <= from <= items.len(),
        is_made_of(items, from, id, older, plan),
    ensures
        turn_decides(items, from, id, older, plan),
{
    let end = items.len() as int;
    let user = has_user_input(items, from, end);
    let bases = |p: int| rollout::is_base(items, p);
    let own = |p: int| is_own_context(items, p, id);
    let touches = |p: int| touches_baseline(items, p, id);
    let base = newest(from, end, bases);
    let first = oldest(from, end, own);
    let touched = newest(from, end, touches);
    lemma_newest(from, end, bases);
    lemma_newest(from, end, touches);
    lemma_oldest(from, end, own);
    assert forall|p: int|
        from <= p < end && #[trigger] items[p] == (RolloutItem::Compacted {
            has_replacement_history: true,
        }) && (forall|k: int|
            p < k < end ==> #[trigger] items[k] != (RolloutItem::Compacted {
                has_replacement_history: true,
            })) implies plan.base == Some(p) by {
        assert(bases(p));
        assert(bases(base->0));
        if base->0 > p {
            assert(items[base->0] == (RolloutItem::Compacted { has_replacement_history: true }));
        }
    }
    if base is Some {
        assert(bases(base->0));
        assert(items[base->0] == (RolloutItem::Compacted { has_replacement_history: true }));
    }
    assert forall|p: int|
        user && from <= p < end && #[trigger] is_own_context(items, p, id) && (forall|k: int|
            from <= k < p ==> !#[trigger] is_own_context(items, k, id)) implies plan.settings
        == settings_at(items, p) by {
        assert(own(p));
        assert(own(first->0));
        assert(is_own_context(items, first->0, id));
    }
    if first is Some {
        assert(own(first->0));
        assert(is_own_context(items, first->0, id));
    }
    assert forall|p: int|
        from <= p < end && #[trigger] touches_baseline(items, p, id) && (forall|k: int|
            p < k < end ==> !#[trigger] touches_baseline(items, k, id)) implies plan.reference == (
    if items[p] is Compacted {
        None
    } else if user {
        Some(p)
    } else {
        older.reference
    }) by {
        assert(touches(p));
        assert(touches(touched->0));
        assert(touches_baseline(items, touched->0, id));
    }
    if touched is Some {
        assert(touches(touched->0));
        assert(touches_baseline(items, touched->0, id));
    }
}

/// The newest turn of a rollout and the plan of everything before it together
/// make the plan of the rollout, whatever was rolled back before the turn.
pub proof fn law_newest_turn(items: Seq<RolloutItem>, from: int, id: Seq<char>)
    requires
        items.len() <= usize::MAX,
        is_turn(items, from, items.len() as int, id),
    ensures
        turn_decides(
            items,
            from,
            id,
            rollout::reconstruction_plan(items.take(from)),
            rollout::reconstruction_plan(items),
        ),
{
    let fresh = rollout::fresh_replay();
    let end = items.len() as int;
    lemma_turn(fresh, items, from, end, id);
    let r = rollout_laws::replay_over(fresh, items, from, end);
    lemma_counts(items, from + 1, end);
    lemma_plan_continues(r, items, from);
    lemma_kinds(items, from, end, id);
    let bases = |p: int| rollout::is_base(items, p);
    let own = |p: int| is_own_context(items, p, id);
    let touches = |p: int| touches_baseline(items, p, id);
    assert(newest(from, end, bases) == newest(from + 1, end, bases));
    assert(newest(from, end, touches) == newest(from + 1, end, touches));
    assert(oldest(from, end, own) == oldest(from + 1, end, own));
    lemma_oldest(from + 1, end, own);
    lemma_newest(from + 1, end, touches);
    lemma_decides(
        items,
        from,
        id,
        rollout::reconstruction_plan(items.take(from)),
        rollout::reconstruction_plan(items),
    );
}

/// A rollout in which no turn starts is replayed as one turn with nothing before
/// it.
pub proof fn law_rollout_without_starts(items: Seq<RolloutItem>, id: Seq<char>)
    requires
        items.len() <= usize::MAX,
        is_turn_body(items, 0, items.len() as int, id),
    ensures
        turn_decides(
            items,
            0,
            id,
            Plan { base: None, settings: None, reference: None, window_generation: 0 },
            rollout::reconstruction_plan(items),
        ),
{
    let fresh = rollout::fresh_replay();
    let end = items.len() as int;
    let older = Plan { base: None, settings: None, reference: None, window_generation: 0 };
    lemma_body(fresh, items, 0, 0, end, id);
    rollout_laws::lemma_replay_over_all(items, 0);
    lemma_counts(items, 0, end);
    let own = |p: int| is_own_context(items, p, id);
    let touches = |p: int| touches_baseline(items, p, id);
    lemma_oldest(0, end, own);
    lemma_newest(0, end, touches);
    lemma_decides(items, 0, id, older, rollout::reconstruction_plan(items));
}

/// A surviving compaction invalidates every older baseline: if the newest turn
/// holds a compaction and no context, no baseline is left, whether or not the
/// user speaks in the turn and whatever stands before it.
pub proof fn law_compaction_clears_the_baseline(items: Seq<RolloutItem>, from: int, id: Seq<char>)
    requires
        items.len() <= usize::MAX,
        is_turn(items, from, items.len() as int, id),
        exists|k: int| from <= k < items.len() && #[trigger] items[k] is Compacted,
        forall|k: int| from <= k < items.len() ==> !(#[trigger] items[k] is TurnContext),
    ensures
        rollout::reconstruction_plan(items).reference is None,
{
    law_newest_turn(items, from, id);
    let end = items.len() as int;
    let touches = |p: int| touches_baseline(items, p, id);
    lemma_newest(from, end, touches);
    let k = choose|k: int| from <= k < items.len() && #[trigger] items[k] is Compacted;
    assert(touches(k));
    let p = newest(from, end, touches)->0;
    assert(touches(p));
    assert forall|k: int| p < k < end implies !#[trigger] touches_baseline(items, k, id) by {
        assert(!touches(k));
    }
    assert(touches_baseline(items, p, id));
}

/// The start of a turn is neither a compaction nor a context nor user input.
proof fn lemma_kinds(items: Seq<RolloutItem>, from: int, to: int, id: Seq<char>)
    requires
        is_turn(items, from, to, id),
    ensures
        !is_user_input(items, from),
        !touches_baseline(items, from, id),
        !is_own_context(items, from, id),
        !rollout::is_base(items, from),
        compactions_in(items, from, to) == compactions_in(items, from + 1, to),
        compactions_before_input(items, from, to) == compactions_before_input(items, from + 1, to),
{
}

// ---------------------------------------------------------------------------
// Rolling turns back
// ---------------------------------------------------------------------------
/// The positions from `cuts[0]` up to the last cut hold turns, one between each
/// cut and the next.
pub open spec fn are_turns(items: Seq<RolloutItem>, cuts: Seq<int>, ids: Seq<Seq<char>>) -> bool {
    &&& cuts.len() == ids.len() + 1
    &&& 0 <= cuts[0]
    &&& cuts.last() <= items.len()
    &&& forall|i: int|
        0 <= i < ids.len() ==> is_turn(items, #[trigger] cuts[i], cuts[i + 1], ids[i])
}

/// In how many of the turns between the cuts the user speaks.
pub open spec fn user_turns(items: Seq<RolloutItem>, cuts: Seq<int>) -> nat
    decreases cuts.len(),
{
    if cuts.len() <= 1 {
        0
    } else {
        user_turns(items, cuts.drop_last()) + (if has_user_input(
            items,
            cuts[cuts.len() - 2],
            cuts.last(),
        ) {
            1nat
        } else {
            0nat
        })
    }
}

/// The compactions that come before the last words of the user in the turns
/// between the cuts.
pub open spec fn early_compactions(items: Seq<RolloutItem>, cuts: Seq<int>) -> nat
    decreases cuts.len(),
{
    if cuts.len() <= 1 {
        0
    } else {
        early_compactions(items, cuts.drop_last()) + compactions_before_input(
            items,
            cuts[cuts.len() - 2],
            cuts.last(),
        )
    }
}

proof fn lemma_drop_one(r: Replay, items: Seq<RolloutItem>, from: int, to: int, id: Seq<char>)
    requires
        is_turn(items, from, to, id),
        items.len() <= usize::MAX,
        r.active is None,
        0 < r.pending <= usize::MAX,
        r.window_generation + (to - from) <= u64::MAX,
    ensures
        rollout_laws::replay_over(r, items, from, to) == (Replay {
            pending: (r.pending - (if has_user_input(items, from, to) {
                1int
            } else {
                0int
            })) as nat,
            window_generation: r.window_generation + compactions_before_input(items, from, to),
            ..r
        }),
{
    lemma_turn(r, items, from, to, id);
    lemma_counts(items, from + 1, to);
    lemma_kinds(items, from, to, id);
    assert(has_user_input(items, from, to) == has_user_input(items, from + 1, to)) by {
        if has_user_input(items, from, to) {
            let k = choose|k: int| from <= k < to && #[trigger] is_user_input(items, k);
            assert(from + 1 <= k < to && is_user_input(items, k));
        }
        if has_user_input(items, from + 1, to) {
            let k = choose|k: int| from + 1 <= k < to && #[trigger] is_user_input(items, k);
            assert(from <= k < to && is_user_input(items, k));
        }
    }
    if !has_user_input(items, from, to) {
        lemma_silent(items, from, to);
    }
}

/// Where the user does not speak, no compaction comes before their words.
proof fn lemma_silent(items: Seq<RolloutItem>, from: int, to: int)
    requires
        !has_user_input(items, from, to),
    ensures
        compactions_before_input(items, from, to) == 0,
    decreases to - from,
{
    if from < to {
        assert(!has_user_input(items, from + 1, to)) by {
            if has_user_input(items, from + 1, to) {
                let k = choose|k: int| from + 1 <= k < to && #[trigger] is_user_input(items, k);
                assert(from <= k < to && is_user_input(items, k));
            }
        }
        lemma_silent(items, from + 1, to);
    }
}

proof fn lemma_fewer_turns(items: Seq<RolloutItem>, cuts: Seq<int>, ids: Seq<Seq<char>>)
    requires
        are_turns(items, cuts, ids),
        ids.len() > 0,
    ensures
        are_turns(items, cuts.drop_last(), ids.drop_last()),
        is_turn(items, cuts[ids.len() - 1], cuts.last(), ids.last()),
        cuts.drop_last().last() == cuts[ids.len() - 1] < cuts.last(),
{
    let init = cuts.drop_last();
    let n = ids.len() - 1;
    assert(is_turn(items, cuts[n], cuts[n + 1], ids[n]));
    assert forall|i: int| 0 <= i < ids.drop_last().len() implies is_turn(
        items,
        #[trigger] init[i],
        init[i + 1],
        ids.drop_last()[i],
    ) by {
        assert(init[i] == cuts[i] && init[i + 1] == cuts[i + 1]);
        assert(is_turn(items, cuts[i], cuts[i + 1], ids[i]));
    }
}

#[verifier::rlimit(40)]
proof fn lemma_drop(r: Replay, items: Seq<RolloutItem>, cuts: Seq<int>, ids: Seq<Seq<char>>)
    requires
        are_turns(items, cuts, ids),
        items.len() <= usize::MAX,
        r.active is None,
        user_turns(items, cuts) <= r.pending <= usize::MAX,
        ids.len() > 0 ==> has_user_input(items, cuts[0], cuts[1]) || user_turns(items, cuts)
            < r.pending,
        r.window_generation + cuts.last() <= u64::MAX,
    ensures
        cuts[0] <= cuts.last(),
        early_compactions(items, cuts) <= cuts.last() - cuts[0],
        rollout_laws::replay_over(r, items, cuts[0], cuts.last()) == (Replay {
            pending: (r.pending - user_turns(items, cuts)) as nat,
            window_generation: r.window_generation + early_compactions(items, cuts),
            ..r
        }),
    decreases cuts.len(),
{
    if ids.len() > 0 {
        let init = cuts.drop_last();
        let mid = init.last();
        let to = cuts.last();
        lemma_fewer_turns(items, cuts, ids);
        lemma_some_user_turn(items, cuts, ids);
        lemma_counts(items, mid, to);
        lemma_drop_one(r, items, mid, to, ids.last());
        let next = rollout_laws::replay_over(r, items, mid, to);
        assert(init[0] == cuts[0]);
        lemma_drop(next, items, init, ids.drop_last());
        rollout_laws::lemma_replay_over_split(r, items, cuts[0], mid, to);
    }
}

/// If the user speaks in the oldest turn, there is a turn in which they speak.
proof fn lemma_some_user_turn(items: Seq<RolloutItem>, cuts: Seq<int>, ids: Seq<Seq<char>>)
    requires
        are_turns(items, cuts, ids),
        ids.len() > 0,
    ensures
        has_user_input(items, cuts[0], cuts[1]) ==> user_turns(items, cuts) > 0,
    decreases cuts.len(),
{
    if ids.len() > 1 {
        let init = cuts.drop_last();
        lemma_fewer_turns(items, cuts, ids);
        lemma_some_user_turn(items, init, ids.drop_last());
        assert(init[0] == cuts[0] && init[1] == cuts[1]);
    }
}

/// The replay of a rollback at the end of a rollout.
proof fn lemma_rollback_at_end(items: Seq<RolloutItem>, num_turns: u32)
    requires
        items.len() > 0,
        items.last() == RolloutItem::EventMsg(EventMsg::ThreadRolledBack { num_turns }),
    ensures
        rollout_laws::replay_over(
            rollout::fresh_replay(),
            items,
            items.len() - 1,
            items.len() as int,
        ) == (Replay { pending: num_turns as nat, ..rollout::fresh_replay() }),
{
    let fresh = rollout::fresh_replay();
    let end = items.len() - 1;
    assert(rollout_laws::replay_over(fresh, items, end + 1, items.len() as int) == fresh);
    assert(items[end] == items.last());
}

/// A rollback drops the newest turns in which the user speaks, and the turns
/// without user input between and after them: base, settings and baseline are
/// those of everything before the oldest dropped turn. Of the dropped compactions
/// those still count that came before the last words of the user in their turn.
///
/// `items` ends with a rollback of as many user turns as stand between the first
/// cut and the rollback, and the oldest turn there is a user turn.
pub proof fn law_rollback_drops_turns(
    items: Seq<RolloutItem>,
    cuts: Seq<int>,
    ids: Seq<Seq<char>>,
    num_turns: u32,
)
    requires
        items.len() <= usize::MAX,
        items.len() > 0,
        items.last() == RolloutItem::EventMsg(EventMsg::ThreadRolledBack { num_turns }),
        are_turns(items, cuts, ids),
        cuts.last() == items.len() - 1,
        ids.len() > 0 ==> has_user_input(items, cuts[0], cuts[1]),
        num_turns == user_turns(items, cuts),
    ensures
        ({
            let plan = rollout::reconstruction_plan(items);
            let older = rollout::reconstruction_plan(items.take(cuts[0]));
            &&& plan.base == older.base
            &&& plan.settings == older.settings
            &&& plan.reference == older.reference
            &&& plan.window_generation == older.window_generation + early_compactions(items, cuts)
        }),
{
    let fresh = rollout::fresh_replay();
    let end = items.len() - 1;
    lemma_rollback_at_end(items, num_turns);
    let r = rollout_laws::replay_over(fresh, items, end, items.len() as int);
    lemma_drop(r, items, cuts, ids);
    let dropped = rollout_laws::replay_over(r, items, cuts[0], end);
    rollout_laws::lemma_replay_over_split(fresh, items, cuts[0], end, items.len() as int);
    lemma_plan_continues(dropped, items, cuts[0]);
}

/// A rollback of more user turns than there are leaves nothing: no base, no
/// settings and no baseline.
pub proof fn law_rollback_of_everything(
    items: Seq<RolloutItem>,
    cuts: Seq<int>,
    ids: Seq<Seq<char>>,
    num_turns: u32,
)
    requires
        items.len() <= usize::MAX,
        items.len() > 0,
        items.last() == RolloutItem::EventMsg(EventMsg::ThreadRolledBack { num_turns }),
        are_turns(items, cuts, ids),
        cuts[0] == 0,
        cuts.last() == items.len() - 1,
        num_turns > user_turns(items, cuts),
    ensures
        ({
            let plan = rollout::reconstruction_plan(items);
            &&& plan.base is None
            &&& plan.settings is None
            &&& plan.reference is None
            &&& plan.window_generation == early_compactions(items, cuts)
        }),
{
    let fresh = rollout::fresh_replay();
    let end = items.len() - 1;
    lemma_rollback_at_end(items, num_turns);
    let r = rollout_laws::replay_over(fresh, items, end, items.len() as int);
    lemma_drop(r, items, cuts, ids);
    rollout_laws::lemma_replay_over_split(fresh, items, 0, end, items.len() as int);
    rollout_laws::lemma_replay_over_all(items, 0);
}

/// The plan of a rollout that has left `r` behind the first `n` items.
proof fn lemma_plan_behind(items: Seq<RolloutItem>, longer: Seq<RolloutItem>, r: Replay)
    requires
        items.len() <= longer.len(),
        items == longer.take(items.len() as int),
        r == rollout_laws::replay_over(
            rollout::fresh_replay(),
            longer,
            items.len() as int,
            longer.len() as int,
        ),
    ensures
        rollout::reconstruction_plan(longer) == rollout::plan_of(
            rollout_laws::replay_over(r, items, 0, items.len() as int),
        ),
{
    let fresh = rollout::fresh_replay();
    let n = items.len() as int;
    rollout_laws::lemma_replay_over_all(longer, 0);
    rollout_laws::lemma_replay_over_split(fresh, longer, 0, n, longer.len() as int);
    assert(items.take(n) =~= longer.take(n));
    rollout_laws::lemma_replay_over_prefix(r, items, longer, 0, n);
}

/// Two rollbacks one after the other take back as much as one of both, and a rollback
/// of no turns takes back nothing.
pub proof fn law_rollbacks_add_up(items: Seq<RolloutItem>, a: u32, b: u32)
    requires
        a + b <= u32::MAX,
    ensures
        ({
            let first = RolloutItem::EventMsg(EventMsg::ThreadRolledBack { num_turns: a });
            let second = RolloutItem::EventMsg(EventMsg::ThreadRolledBack { num_turns: b });
            let both = RolloutItem::EventMsg(
                EventMsg::ThreadRolledBack { num_turns: (a + b) as u32 },
            );
            let none = RolloutItem::EventMsg(EventMsg::ThreadRolledBack { num_turns: 0 });
            &&& rollout::reconstruction_plan(items.push(first).push(second))
                == rollout::reconstruction_plan(items.push(both))
            &&& rollout::reconstruction_plan(items.push(none)) == rollout::reconstruction_plan(items)
        }),
{
    let fresh = rollout::fresh_replay();
    let n = items.len() as int;
    let first = RolloutItem::EventMsg(EventMsg::ThreadRolledBack { num_turns: a });
    let second = RolloutItem::EventMsg(EventMsg::ThreadRolledBack { num_turns: b });
    let both = RolloutItem::EventMsg(EventMsg::ThreadRolledBack { num_turns: (a + b) as u32 });
    let none = RolloutItem::EventMsg(EventMsg::ThreadRolledBack { num_turns: 0 });
    let two = items.push(first).push(second);
    let one = items.push(both);
    let zero = items.push(none);
    assert(two.take(n) =~= items);
    assert(one.take(n) =~= items);
    assert(zero.take(n) =~= items);
    let r = Replay { pending: (a + b) as nat, ..fresh };
    reveal_with_fuel(rollout_laws::replay_over, 3);
    assert(two[n] == first && two[n + 1] == second);
    assert(one[n] == both);
    assert(zero[n] == none);
    assert(rollout_laws::replay_over(fresh, two, n, n + 2) == r);
    assert(rollout_laws::replay_over(fresh, one, n, n + 1) == r);
    assert(rollout_laws::replay_over(fresh, zero, n, n + 1) == fresh);
    lemma_plan_behind(items, two, r);
    lemma_plan_behind(items, one, r);
    lemma_plan_behind(items, zero, fresh);
    assert(items.take(n) =~= items);
    lemma_plan_behind(items, items, fresh);
}

} // verus!
