use spending_tracker::bot::{
    parse_callback, parse_field, BotError, CallbackAction, CallbackOutcome, Field, FieldValue,
    SpendingTrackerBot, TransactionKey, TransactionState,
};
use spending_tracker::model::{Model, StoreError};

fn seeded() -> Model {
    let mut model = Model::new(true);
    model.fill_test_data().unwrap();
    model
}

fn bound_draft(bot: &mut SpendingTrackerBot, model: &Model, text: &str, message_id: u64) -> TransactionKey {
    let token = bot
        .start_draft(model, text, 1001, String::from("alex_bot"), 1701424800, 100)
        .unwrap();
    bot.bind_draft(token, message_id).unwrap()
}

#[test]
fn new_bot_has_no_drafts() {
    let bot = SpendingTrackerBot::new();
    let key = TransactionKey { telegram_user_id: 1, message_id: 1 };
    assert!(bot.draft(key).is_none());
    assert!(bot.awaiting_value_key(1).is_none());
}

#[test]
fn amount_text_creates_draft_with_defaults() {
    let model = seeded();
    let mut bot = SpendingTrackerBot::new();
    let token = bot
        .start_draft(&model, "50.75", 1001, String::from("alex_bot"), 1701424800, 100)
        .unwrap();
    let pending = bot.pending_draft(token).unwrap();
    assert_eq!(pending.amount, 5075);
    let key = bot.bind_draft(token, 77).unwrap();
    assert_eq!(key, TransactionKey { telegram_user_id: 1001, message_id: 77 });
    assert!(bot.pending_draft(token).is_none());
    let d = bot.draft(key).unwrap();
    assert_eq!(d.amount, 5075);
    assert_eq!(d.account_info.id, model.get_accounts()[0].id);
    assert_eq!(d.currency.id, model.get_currencies()[0].id);
    assert_eq!(d.category_info.id, 1);
    assert_eq!(d.user_id, 1001);
    assert_eq!(d.timestamp, 1701424800);
    assert_eq!(d.comments, "");
    assert_eq!(bot.state(key), Some(TransactionState::AwaitingFieldChoice));
}

#[test]
fn non_amount_text_creates_nothing() {
    let model = seeded();
    let mut bot = SpendingTrackerBot::new();
    let r = bot.start_draft(&model, "lunch", 1001, String::from("a"), 0, 0);
    assert_eq!(r, Err(BotError::InvalidValue(Field::Amount)));
    assert!(bot.pending_draft(0).is_none());
}

#[test]
fn draft_needs_reference_data() {
    let model = Model::new(true);
    let mut bot = SpendingTrackerBot::new();
    let r = bot.start_draft(&model, "5", 1001, String::from("a"), 0, 0);
    assert_eq!(r, Err(BotError::Store(StoreError::NoReferenceData)));
}

#[test]
fn binding_twice_or_to_taken_key_is_refused() {
    let model = seeded();
    let mut bot = SpendingTrackerBot::new();
    let key = bound_draft(&mut bot, &model, "1", 5);
    let t = bot.start_draft(&model, "2", 1001, String::from("a"), 0, 0).unwrap();
    assert_eq!(bot.bind_draft(t, key.message_id), Err(BotError::KeyInUse));
    assert_eq!(bot.bind_draft(99, 6), Err(BotError::NoSuchDraft));
    assert!(bot.pending_draft(t).is_some());
}

#[test]
fn select_account_then_existing_id() {
    let model = seeded();
    let mut bot = SpendingTrackerBot::new();
    let key = bound_draft(&mut bot, &model, "50.75", 1);
    assert_eq!(bot.select_field(key, "account", 101), Ok(Field::Account));
    assert_eq!(bot.state(key), Some(TransactionState::AwaitingFieldValue(Field::Account)));
    assert_eq!(bot.awaiting_value_key(1001), Some(key));
    assert_eq!(bot.receive_value(key, "2", &model, 102), Ok(()));
    assert_eq!(bot.draft(key).unwrap().account_info.id, 2);
    assert_eq!(bot.draft(key).unwrap().account_info.display_name, "Hanna Daily");
    assert_eq!(bot.state(key), Some(TransactionState::AwaitingFieldChoice));
}

#[test]
fn select_account_then_missing_id() {
    let model = seeded();
    let mut bot = SpendingTrackerBot::new();
    let key = bound_draft(&mut bot, &model, "50.75", 1);
    bot.select_field(key, "account", 101).unwrap();
    assert_eq!(bot.receive_value(key, "9", &model, 102), Err(BotError::InvalidValue(Field::Account)));
    assert_eq!(bot.state(key), Some(TransactionState::AwaitingFieldValue(Field::Account)));
    assert_eq!(bot.draft(key).unwrap().account_info.id, 1);
}

#[test]
fn commit_then_commit_again() {
    let mut model = seeded();
    let mut bot = SpendingTrackerBot::new();
    let key = bound_draft(&mut bot, &model, "50.75", 1);
    assert_eq!(bot.commit(key, &mut model), Ok(5));
    assert_eq!(model.expense_count(), 5);
    assert!(bot.draft(key).is_none());
    assert_eq!(bot.commit(key, &mut model), Err(BotError::NoSuchDraft));
    assert_eq!(model.expense_count(), 5);
}

#[test]
fn commit_refused_by_store_keeps_draft() {
    let mut model = seeded();
    let mut bot = SpendingTrackerBot::new();
    let t = bot.start_draft(&model, "3", 4242, String::from("stranger"), 0, 0).unwrap();
    let key = bot.bind_draft(t, 8).unwrap();
    assert_eq!(
        bot.commit(key, &mut model),
        Err(BotError::Store(StoreError::DanglingReference(spending_tracker::model::Reference::User)))
    );
    assert_eq!(bot.state(key), Some(TransactionState::AwaitingFieldChoice));
    assert_eq!(model.expense_count(), 4);
}

#[test]
fn bogus_field_is_refused() {
    let model = seeded();
    let mut bot = SpendingTrackerBot::new();
    let key = bound_draft(&mut bot, &model, "50.75", 1);
    assert_eq!(bot.select_field(key, "bogus", 101), Err(BotError::UnknownField));
    assert_eq!(bot.state(key), Some(TransactionState::AwaitingFieldChoice));
    assert_eq!(bot.draft(key).unwrap().amount, 5075);
}

#[test]
fn inputs_out_of_turn_are_refused() {
    let mut model = seeded();
    let mut bot = SpendingTrackerBot::new();
    let key = bound_draft(&mut bot, &model, "1", 1);
    assert_eq!(bot.receive_value(key, "2", &model, 1), Err(BotError::InputNotExpected));
    bot.select_field(key, "amount", 1).unwrap();
    assert_eq!(bot.select_field(key, "currency", 1), Err(BotError::InputNotExpected));
    assert_eq!(bot.commit(key, &mut model), Err(BotError::InputNotExpected));
    assert_eq!(bot.state(key), Some(TransactionState::AwaitingFieldValue(Field::Amount)));
}

#[test]
fn every_field_can_be_edited() {
    let model = seeded();
    let mut bot = SpendingTrackerBot::new();
    let key = bound_draft(&mut bot, &model, "1", 1);
    bot.select_field(key, "amount", 1).unwrap();
    assert_eq!(bot.receive_value(key, "-3", &model, 1), Err(BotError::InvalidValue(Field::Amount)));
    bot.receive_value(key, "12.5", &model, 1).unwrap();
    bot.select_field(key, "timestamp", 1).unwrap();
    assert_eq!(
        bot.receive_value(key, "yesterday", &model, 1),
        Err(BotError::InvalidValue(Field::Timestamp))
    );
    bot.receive_value(key, "2023-12-02T12:30:00Z", &model, 1).unwrap();
    bot.select_field(key, "category", 1).unwrap();
    bot.receive_value(key, "3", &model, 1).unwrap();
    bot.select_field(key, "currency", 1).unwrap();
    bot.receive_value(key, "3", &model, 1).unwrap();
    let d = bot.draft(key).unwrap();
    assert_eq!(d.amount, 1250);
    assert_eq!(d.timestamp, 1701520200);
    assert_eq!(d.category_info.display_name, "Entertainment");
    assert_eq!(d.currency.name, "BYN");
}

#[test]
fn timestamp_with_offset() {
    let model = seeded();
    let mut bot = SpendingTrackerBot::new();
    let key = bound_draft(&mut bot, &model, "1", 1);
    bot.select_field(key, "timestamp", 1).unwrap();
    bot.receive_value(key, "1996-12-19T16:39:57-08:00", &model, 1).unwrap();
    assert_eq!(bot.draft(key).unwrap().timestamp, 851042397);
}

#[test]
fn edits_on_two_keys_interleaved() {
    let model = seeded();
    let mut bot = SpendingTrackerBot::new();
    let a = bound_draft(&mut bot, &model, "1", 1);
    let b = bound_draft(&mut bot, &model, "2", 2);
    bot.select_field(a, "account", 1).unwrap();
    bot.select_field(b, "amount", 1).unwrap();
    bot.receive_value(b, "9.99", &model, 2).unwrap();
    bot.receive_value(a, "3", &model, 2).unwrap();
    bot.select_field(a, "category", 3).unwrap();
    bot.select_field(b, "account", 3).unwrap();
    bot.receive_value(a, "2", &model, 4).unwrap();
    bot.receive_value(b, "2", &model, 4).unwrap();
    let da = bot.draft(a).unwrap();
    let db = bot.draft(b).unwrap();
    assert_eq!((da.amount, da.account_info.id, da.category_info.id), (100, 3, 2));
    assert_eq!((db.amount, db.account_info.id, db.category_info.id), (999, 2, 1));
}

#[test]
fn later_edit_of_same_field_wins_whole() {
    let model = seeded();
    let mut bot = SpendingTrackerBot::new();
    let key = bound_draft(&mut bot, &model, "1", 1);
    bot.select_field(key, "account", 1).unwrap();
    bot.receive_value(key, "2", &model, 1).unwrap();
    bot.select_field(key, "account", 1).unwrap();
    bot.receive_value(key, "3", &model, 1).unwrap();
    let d = bot.draft(key).unwrap();
    assert_eq!(d.account_info.id, 3);
    assert_eq!(d.account_info.display_name, "Family BYN");
}

#[test]
fn callbacks() {
    let mut model = seeded();
    let mut bot = SpendingTrackerBot::new();
    let key = bound_draft(&mut bot, &model, "1", 1);
    assert_eq!(bot.handle_callback(key, "launch", &mut model, 1), Err(BotError::UnknownCallbackAction));
    assert_eq!(
        bot.handle_callback(key, "edit_currency", &mut model, 1),
        Ok(CallbackOutcome::FieldSelected(Field::Currency))
    );
    bot.receive_value(key, "2", &mut model, 1).unwrap();
    assert_eq!(bot.handle_callback(key, "commit", &mut model, 1), Ok(CallbackOutcome::Committed(5)));
    assert_eq!(bot.handle_callback(key, "commit", &mut model, 1), Err(BotError::NoSuchDraft));
}

#[test]
fn names_and_actions() {
    assert_eq!(parse_field("timestamp"), Ok(Field::Timestamp));
    assert_eq!(parse_field("Amount"), Err(BotError::UnknownField));
    assert_eq!(parse_callback("edit_category"), Ok(CallbackAction::Edit(Field::Category)));
    assert_eq!(parse_callback("commit"), Ok(CallbackAction::Commit));
    assert_eq!(parse_callback("edit_comments"), Err(BotError::UnknownCallbackAction));
}

#[test]
fn stale_drafts_are_evicted() {
    let model = seeded();
    let mut bot = SpendingTrackerBot::new();
    let old_key = bound_draft(&mut bot, &model, "1", 1);
    let fresh = bound_draft(&mut bot, &model, "2", 2);
    bot.select_field(fresh, "amount", 500).unwrap();
    let orphan = bot.start_draft(&model, "3", 1001, String::from("a"), 0, 100).unwrap();
    bot.evict_expired(400, 300);
    assert!(bot.draft(old_key).is_none());
    assert!(bot.pending_draft(orphan).is_none());
    assert!(bot.draft(fresh).is_some());
    bot.evict_expired(799, 300);
    assert!(bot.draft(fresh).is_some());
    bot.evict_expired(800, 300);
    assert!(bot.draft(fresh).is_none());
}


#[test]
fn resolved_value_is_applied_to_waiting_field_only() {
    let model = seeded();
    let mut bot = SpendingTrackerBot::new();
    let key = bound_draft(&mut bot, &model, "1", 1);
    assert_eq!(bot.apply_value(key, FieldValue::Timestamp(123), 1), Err(BotError::InputNotExpected));
    bot.select_field(key, "timestamp", 1).unwrap();
    assert_eq!(bot.apply_value(key, FieldValue::Amount(5), 1), Err(BotError::InputNotExpected));
    assert_eq!(bot.apply_value(key, FieldValue::Timestamp(123), 1), Ok(()));
    let d = bot.draft(key).unwrap();
    assert_eq!((d.timestamp, d.amount), (123, 100));
    assert_eq!(bot.state(key), Some(TransactionState::AwaitingFieldChoice));
    let other = TransactionKey { telegram_user_id: 1001, message_id: 99 };
    assert_eq!(bot.apply_value(other, FieldValue::Amount(5), 1), Err(BotError::NoSuchDraft));
}
