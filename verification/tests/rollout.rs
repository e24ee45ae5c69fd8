use codex_kernel::rollout::{
    materialize_rollout_reconstruction, reconstruct_history_from_rollout, reconstruct_rollout_plan,
    turn_ids_are_compatible, EventMsg, HistoryStep, InitialHistory, PreparedInitialHistory,
    ResumedHistory, RolloutItem, TurnContextItem,
};

fn started(id: &str) -> RolloutItem {
    RolloutItem::EventMsg(EventMsg::TurnStarted { turn_id: id.to_string() })
}

fn complete(id: &str) -> RolloutItem {
    RolloutItem::EventMsg(EventMsg::TurnComplete { turn_id: id.to_string() })
}

fn user_message() -> RolloutItem {
    RolloutItem::EventMsg(EventMsg::UserMessage)
}

fn rolled_back(num_turns: u32) -> RolloutItem {
    RolloutItem::EventMsg(EventMsg::ThreadRolledBack { num_turns })
}

fn item() -> RolloutItem {
    RolloutItem::ResponseItem { user_turn_boundary: true }
}

fn context(id: &str, model: &str) -> RolloutItem {
    RolloutItem::TurnContext(TurnContextItem {
        turn_id: Some(id.to_string()),
        model: model.to_string(),
        realtime_active: None,
    })
}

fn compacted(has_replacement_history: bool) -> RolloutItem {
    RolloutItem::Compacted { has_replacement_history }
}

fn turn(id: &str, model: &str) -> Vec<RolloutItem> {
    vec![started(id), context(id, model), user_message(), item(), complete(id)]
}

fn model(items: &[RolloutItem]) -> Option<String> {
    reconstruct_rollout_plan(items)
        .previous_turn_settings
        .map(|settings| settings.model)
}

#[test]
fn the_newest_turn_gives_settings_and_baseline() {
    let mut items = vec![RolloutItem::SessionMeta];
    items.extend(turn("1", "old"));
    items.extend(turn("2", "new"));
    let plan = reconstruct_rollout_plan(&items);
    assert_eq!(plan.base_replacement_history_index, None);
    assert_eq!(plan.reference_context_item, Some(7));
    assert_eq!(plan.window_generation, 0);
    assert_eq!(model(&items), Some("new".to_string()));
}

#[test]
fn every_compaction_counts_without_rollbacks() {
    let mut items = turn("1", "m");
    items.push(compacted(true));
    items.extend(turn("2", "m"));
    items.push(compacted(true));
    items.push(compacted(false));
    let plan = reconstruct_rollout_plan(&items);
    assert_eq!(plan.window_generation, 3);
    assert_eq!(plan.base_replacement_history_index, Some(11));
    assert_eq!(plan.reference_context_item, None);
}

#[test]
fn a_rollback_drops_the_newest_user_turns() {
    let mut items = turn("1", "kept");
    items.extend(turn("2", "dropped"));
    items.push(compacted(true));
    items.extend(turn("3", "dropped too"));
    items.push(rolled_back(2));
    let before = reconstruct_rollout_plan(&items[..5]);
    let after = reconstruct_rollout_plan(&items);
    assert_eq!(model(&items), Some("kept".to_string()));
    assert_eq!(after.reference_context_item, before.reference_context_item);
    assert!(after.window_generation <= 1);
}

#[test]
fn a_compaction_before_the_dropped_input_still_counts() {
    let items = vec![
        started("1"),
        compacted(true),
        user_message(),
        item(),
        complete("1"),
        rolled_back(1),
    ];
    let plan = reconstruct_rollout_plan(&items);
    assert_eq!(plan.window_generation, 1);
}

#[test]
fn the_history_starts_at_its_base() {
    let items = vec![item(), compacted(true), item(), compacted(false)];
    let rebuilt = reconstruct_history_from_rollout(&items);
    assert_eq!(
        rebuilt.history,
        vec![
            HistoryStep::Replace(1),
            HistoryStep::Record(2),
            HistoryStep::RebuildFromSummary(3),
        ]
    );
    assert_eq!(rebuilt.reference_context_item, None);
}

#[test]
fn a_dropped_base_leaves_the_whole_rollout_to_replay() {
    let items = vec![item(), compacted(true), item(), rolled_back(1)];
    let rebuilt = reconstruct_history_from_rollout(&items);
    assert_eq!(
        rebuilt.history,
        vec![
            HistoryStep::Record(0),
            HistoryStep::Replace(1),
            HistoryStep::Record(2),
            HistoryStep::DropLastUserTurns(1),
        ]
    );
}

#[test]
fn a_plan_is_carried_out_as_made() {
    let mut items = turn("1", "m");
    items.push(item());
    let plan = reconstruct_rollout_plan(&items);
    let rebuilt = materialize_rollout_reconstruction(&items, plan);
    assert_eq!(rebuilt.history, vec![HistoryStep::Record(3), HistoryStep::Record(5)]);
    assert_eq!(rebuilt.reference_context_item, Some(1));
    assert_eq!(
        rebuilt.previous_turn_settings.map(|settings| settings.model),
        Some("m".to_string())
    );
    assert_eq!(rebuilt.window_generation, 0);
}

#[test]
fn turn_ids_conflict_only_if_both_are_known() {
    let a = Some("a".to_string());
    let b = Some("b".to_string());
    assert!(turn_ids_are_compatible(&a, &a));
    assert!(!turn_ids_are_compatible(&a, &b));
    assert!(turn_ids_are_compatible(&a, &None));
    assert!(turn_ids_are_compatible(&None, &b));
}

#[test]
fn histories_are_prepared_with_their_plan() {
    let fresh = PreparedInitialHistory::new(InitialHistory::New);
    assert_eq!(fresh.window_generation(), 0);
    assert!(fresh.into_parts().1.is_none());
    let mut items = turn("1", "m");
    items.push(compacted(true));
    let resumed =
        PreparedInitialHistory::new(InitialHistory::Resumed(ResumedHistory { history: items }));
    assert_eq!(resumed.window_generation(), 1);
    assert!(matches!(resumed.history(), InitialHistory::Resumed(_)));
    let (_, plan) = resumed.into_parts();
    assert_eq!(plan.expect("a plan").base_replacement_history_index, Some(5));
}
