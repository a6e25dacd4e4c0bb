use spending_tracker::model::{
    AccountInfo, CategoryInfo, CurrencyInfo, Model, Reference, StoreError, UserInfo,
};

fn seeded() -> Model {
    let mut model = Model::new(true);
    model.fill_test_data().unwrap();
    model
}

#[test]
fn test_1() {
    let mut model = Model::new(true);
    model.fill_test_data().unwrap();

    let accounts = model.get_accounts();
    assert!(accounts.len() > 0);

    let categories = model.get_categories();
    assert!(categories.len() > 0);
}

#[test]
fn test_2() {
    let mut model = Model::new(true);
    model.fill_test_data().unwrap();

    let transaction = model.make_active_transaction(1701424800).unwrap();
    assert_eq!(transaction.user_name, String::from("My user"));
}

#[test]
fn sample_transaction_uses_first_rows() {
    let model = seeded();
    let t = model.make_active_transaction(1701424800).unwrap();
    assert_eq!(t.amount, 12300);
    assert_eq!(t.comments, "My comments");
    assert_eq!(t.account_info.id, 1);
    assert_eq!(t.category_info.id, 1);
    assert_eq!(t.currency.name, "EUR");
    assert_eq!(t.timestamp, 1701424800);
}

#[test]
fn fixtures_hold_the_sample_rows() {
    let model = seeded();
    let names: Vec<String> = model.get_currencies().into_iter().map(|c| c.name).collect();
    assert_eq!(names, vec!["EUR", "USD", "BYN"]);
    let accounts = model.get_accounts();
    assert_eq!(accounts.len(), 3);
    assert_eq!(accounts[1].display_name, "Hanna Daily");
    assert_eq!(model.get_categories().len(), 4);
    assert_eq!(model.expense_count(), 4);
    assert_eq!(accounts[2].currency_id, 3);
    let users = model.get_users();
    assert_eq!((users[1].telegram_name.as_str(), users[1].display_name.as_str()), ("hanna_bot", "Hanna"));
    let categories: Vec<String> = model.get_categories().into_iter().map(|c| c.display_name).collect();
    assert_eq!(categories, vec!["Groceries", "Transportation", "Entertainment", "Utilities"]);
    let users: Vec<u64> = model.get_users().iter().map(|u| u.telegram_id).collect();
    assert_eq!(users, vec![1001, 1002]);
    let expenses = model.get_expenses();
    assert_eq!(expenses[0].amount, 5075);
    assert_eq!(expenses[0].timestamp, 1701424800);
    assert_eq!(expenses[3].comments, "Paid electricity bill");
}

#[test]
fn fixtures_refused_on_durable_store() {
    let mut model = Model::new(false);
    assert_eq!(model.fill_test_data(), Err(StoreError::FixturesDisabled));
    assert_eq!(model.get_accounts().len(), 0);
}

#[test]
fn fixtures_refused_twice() {
    let mut model = seeded();
    assert_eq!(model.fill_test_data(), Err(StoreError::StoreNotEmpty));
    assert_eq!(model.expense_count(), 4);
}

#[test]
fn account_lookup() {
    let model = seeded();
    assert_eq!(model.get_account_info(3).unwrap().display_name, "Family BYN");
    assert!(model.get_account_info(4).is_none());
    assert_eq!(model.get_category_info(4).unwrap().display_name, "Utilities");
    assert_eq!(model.get_currency_info(2).unwrap().name, "USD");
}

#[test]
fn new_draft_needs_reference_data() {
    let model = Model::new(true);
    let r = model.new_draft(100, 1001, String::from("alex"), 0);
    assert_eq!(r.unwrap_err(), StoreError::NoReferenceData);
    assert_eq!(model.make_active_transaction(0).unwrap_err(), StoreError::NoReferenceData);
}

#[test]
fn commit_writes_one_expense() {
    let mut model = seeded();
    let d = model.new_draft(5075, 1001, String::from("alex"), 1701424800).unwrap();
    assert_eq!(model.commit_expense(&d), Ok(5));
    assert_eq!(model.expense_count(), 5);
    let e = &model.get_expenses()[4];
    assert_eq!((e.id, e.account_id, e.category_id, e.user_id), (5, 1, 1, 1001));
    assert_eq!((e.timestamp, e.amount), (1701424800, 5075));
    assert_eq!(model.commit_expense(&d), Ok(6));
}

#[test]
fn commit_with_dangling_references_writes_nothing() {
    let mut model = seeded();
    let base = model.new_draft(5075, 1001, String::from("alex"), 0).unwrap();

    let mut d = base.duplicate();
    d.account_info = AccountInfo { id: 42, display_name: String::from("ghost"), currency_id: 1 };
    assert_eq!(model.commit_expense(&d), Err(StoreError::DanglingReference(Reference::Account)));

    let mut d = base.duplicate();
    d.category_info = CategoryInfo { id: 42, display_name: String::from("ghost") };
    assert_eq!(model.commit_expense(&d), Err(StoreError::DanglingReference(Reference::Category)));

    let mut d = base.duplicate();
    d.currency = CurrencyInfo { id: 42, name: String::from("XXX") };
    assert_eq!(model.commit_expense(&d), Err(StoreError::DanglingReference(Reference::Currency)));

    let mut d = base.duplicate();
    d.user_id = 7;
    assert_eq!(model.commit_expense(&d), Err(StoreError::DanglingReference(Reference::User)));

    assert_eq!(model.expense_count(), 4);
    assert_eq!(model.commit_expense(&base), Ok(5));
}

#[test]
fn commit_refused_when_ids_run_out() {
    let mut model = Model::from_rows(
        false,
        vec![CurrencyInfo { id: 1, name: String::from("EUR") }],
        vec![AccountInfo { id: 1, display_name: String::from("A"), currency_id: 1 }],
        vec![CategoryInfo { id: 1, display_name: String::from("C") }],
        vec![UserInfo {
            telegram_id: 5,
            telegram_name: String::from("u"),
            display_name: String::from("U"),
        }],
        u64::MAX,
    );
    let d = model.new_draft(1, 5, String::from("u"), 0).unwrap();
    assert_eq!(model.commit_expense(&d), Err(StoreError::ExpenseIdsExhausted));
    assert_eq!(model.expense_count(), 0);
}
