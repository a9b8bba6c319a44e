use lineup::command::{add, resolve_date, show, AddType, NewEntry, NewStatic};
use lineup::ledger::{Database, EntryRow, LedgerError, Month, Statics};
use lineup::present::{decimal, display_month, fit_column, render_entries, show_statics};
use lineup::ledger::Entrys;

fn month_entries(db: &Database, month: u32, year: i32) -> Vec<(String, isize, u8)> {
    db.get_entrys(month, year)
        .into_iter()
        .map(|e| (e.name, e.amount, e.is_expense))
        .collect()
}

#[test]
fn positive_amount_is_not_expense() {
    let mut db = Database::new();
    assert_eq!(db.new_entry("Salary", 2000, 4, 2024), Ok(()));
    assert_eq!(month_entries(&db, 4, 2024), vec![("Salary".to_string(), 2000, 0)]);
}

#[test]
fn negative_amount_is_expense() {
    let mut db = Database::new();
    assert_eq!(db.new_entry("Rent", -1000, 4, 2024), Ok(()));
    assert_eq!(month_entries(&db, 4, 2024), vec![("Rent".to_string(), -1000, 1)]);
}

#[test]
fn zero_amount_is_not_expense() {
    let mut db = Database::new();
    assert_eq!(db.new_entry("Nothing", 0, 4, 2024), Ok(()));
    assert_eq!(month_entries(&db, 4, 2024), vec![("Nothing".to_string(), 0, 0)]);
}

#[test]
fn is_expense_follows_sign() {
    let db = Database::new();
    assert_eq!(db.is_expense(-1), 1);
    assert_eq!(db.is_expense(0), 0);
    assert_eq!(db.is_expense(7), 0);
}

#[test]
fn new_month_is_seeded_from_statics() {
    let mut db = Database::new();
    db.new_static("Rent", -1000).unwrap();
    db.new_static("Wage", 3000).unwrap();
    let m = db.create_month(5, 2024).unwrap();
    assert_eq!(m, Month { id: 1, month: 5, year: 2024 });
    assert_eq!(db.month_rows(), vec![m]);
    assert_eq!(
        month_entries(&db, 5, 2024),
        vec![("Rent".to_string(), -1000, 1), ("Wage".to_string(), 3000, 0)]
    );
    for e in db.get_entrys(5, 2024) {
        assert_eq!(e.month, m);
    }
}

#[test]
fn resolving_twice_neither_adds_a_month_nor_reseeds() {
    let mut db = Database::new();
    db.new_static("Rent", -1000).unwrap();
    let first = db.create_month(6, 2024).unwrap();
    db.new_static("Gym", -50).unwrap();
    let second = db.create_month(6, 2025).unwrap();
    assert_eq!(first, second);
    assert_eq!(db.month_rows().len(), 1);
    assert_eq!(month_entries(&db, 6, 2024), vec![("Rent".to_string(), -1000, 1)]);
}

#[test]
fn statics_added_later_skip_existing_months() {
    let mut db = Database::new();
    db.new_entry("Bonus", 10, 2, 2024).unwrap();
    db.new_static("Rent", -1000).unwrap();
    db.new_entry("Tip", 5, 2, 2024).unwrap();
    assert_eq!(
        month_entries(&db, 2, 2024),
        vec![("Bonus".to_string(), 10, 0), ("Tip".to_string(), 5, 0)]
    );
}

#[test]
fn deleting_static_keeps_seeded_entries() {
    let mut db = Database::new();
    db.new_static("Rent", -1000).unwrap();
    db.new_static("Gym", -50).unwrap();
    db.create_month(7, 2024).unwrap();
    db.delete_static(2);
    let statics: Vec<(usize, String)> = db.get_statics().into_iter().map(|s| (s.id, s.name)).collect();
    assert_eq!(statics, vec![(1, "Rent".to_string())]);
    assert_eq!(
        month_entries(&db, 7, 2024),
        vec![("Rent".to_string(), -1000, 1), ("Gym".to_string(), -50, 1)]
    );
}

#[test]
fn deleting_unknown_static_changes_nothing() {
    let mut db = Database::new();
    db.new_static("Rent", -1000).unwrap();
    db.delete_static(9);
    assert_eq!(db.get_statics().len(), 1);
}

fn entry(name: &str, amount: isize) -> Entrys {
    Entrys {
        id: 1,
        name: name.to_string(),
        amount,
        is_expense: if amount < 0 { 1 } else { 0 },
        month: Month { id: 1, month: 1, year: 2024 },
    }
}

#[test]
fn formatter_sum_non_negative() {
    let v = render_entries(&vec![entry("Rent", -1000), entry("Salary", 2000)]);
    assert_eq!(v.sum, 1000);
    assert!(!v.sum_negative);
    assert_eq!(v.sum_field, format!("{:>30}", "1000"));
    assert_eq!(v.rows.len(), 2);
    assert_eq!(v.rows[0].label, format!("{:<25}", "Rent"));
    assert_eq!(v.rows[0].amount, "     -1000");
    assert!(v.rows[0].negative);
    assert_eq!(v.rows[1].amount, "      2000");
    assert!(!v.rows[1].negative);
    assert_eq!(v.rule, "-".repeat(35));
}

#[test]
fn formatter_sum_negative() {
    let v = render_entries(&vec![entry("Rent", -1000)]);
    assert_eq!(v.sum, -1000);
    assert!(v.sum_negative);
    assert_eq!(v.sum_field, format!("{:>30}", "-1000"));
}

#[test]
fn formatter_empty_month() {
    let v = render_entries(&vec![]);
    assert_eq!(v.sum, 0);
    assert!(!v.sum_negative);
    assert!(v.rows.is_empty());
}

#[test]
fn formatter_sum_beyond_isize() {
    let v = render_entries(&vec![entry("A", isize::MAX), entry("B", isize::MAX)]);
    assert_eq!(v.sum, 2 * (isize::MAX as i128));
    assert!(!v.sum_negative);
}

#[test]
fn long_ascii_name_is_cut() {
    assert_eq!(fit_column("this song is just six words long", 7), "this so");
    assert_eq!(fit_column("stormclouds", 15), "stormclouds    ");
}

#[test]
fn non_ascii_name_is_padded() {
    assert_eq!(fit_column("pâté", 6), "pâté  ");
}

#[test]
fn long_non_ascii_name_is_cut_by_characters() {
    assert_eq!(fit_column("pâtés", 2), "pâ");
    let long = "é".repeat(30);
    assert_eq!(fit_column(&long, 25), "é".repeat(25));
}

#[test]
fn loaded_entry_of_no_month_is_refused() {
    let entrys = vec![EntryRow { id: 1, name: "Gym".to_string(), amount: -50, is_expense: 1, month_id: 1 }];
    assert_eq!(Database::from_rows(vec![], entrys, vec![]).err(), Some(LedgerError::Inconsistent));
}

#[test]
fn static_then_entry_shows_both() {
    let mut db = Database::new();
    db.new_static("Rent", -1000).unwrap();
    db.new_entry("Bonus", 500, 3, 2024).unwrap();
    let v = display_month(3, 2024, &db);
    let labels: Vec<String> = v.rows.iter().map(|l| l.label.trim_end().to_string()).collect();
    assert_eq!(labels, vec!["Rent".to_string(), "Bonus".to_string()]);
    assert_eq!(v.sum, -500);
    assert!(v.sum_negative);
}

#[test]
fn deleted_static_not_seeded() {
    let mut db = Database::new();
    db.new_static("Gym", -50).unwrap();
    let id = db.get_statics()[0].id;
    db.delete_static(id);
    db.create_month(8, 2024).unwrap();
    assert!(db.get_entrys(8, 2024).iter().all(|e| e.name != "Gym"));
    assert!(db.get_entrys(8, 2024).is_empty());
}

#[test]
fn listing_ignores_year() {
    let mut db = Database::new();
    db.new_entry("A", 1, 3, 2023).unwrap();
    db.new_entry("B", 2, 3, 2024).unwrap();
    assert_eq!(
        month_entries(&db, 3, 2024),
        vec![("A".to_string(), 1, 0), ("B".to_string(), 2, 0)]
    );
    assert!(db.get_entrys(4, 2024).is_empty());
}

#[test]
fn statics_listing_rows() {
    let mut db = Database::new();
    db.new_static("Rent", -1000).unwrap();
    db.new_static("Wage", 3000).unwrap();
    let rows = show_statics(&db);
    assert_eq!(rows.len(), 2);
    assert_eq!(rows[0].label, format!("{:<5}{:<25}", "1", "Rent"));
    assert_eq!(rows[0].amount, "     -1000");
    assert!(rows[0].negative);
    assert_eq!(rows[1].label, format!("{:<5}{:<25}", "2", "Wage"));
    assert!(!rows[1].negative);
}

#[test]
fn zero_date_parts_take_today() {
    assert_eq!(resolve_date(0, 0, (10, 2026)), (10, 2026));
    assert_eq!(resolve_date(5, 0, (10, 2026)), (5, 2026));
    assert_eq!(resolve_date(0, 2023, (10, 2026)), (10, 2023));
    assert_eq!(resolve_date(5, 2023, (10, 2026)), (5, 2023));
}

#[test]
fn add_and_show_with_given_day() {
    let mut db = Database::new();
    let e = AddType::Entry(NewEntry { name: "Coffee".to_string(), amount: -3, month: 0, year: 0 });
    assert_eq!(add(&e, &mut db, (9, 2025)), Ok(()));
    let s = AddType::Static(NewStatic { name: "Rent".to_string(), amount: -900 });
    assert_eq!(add(&s, &mut db, (9, 2025)), Ok(()));
    assert_eq!(db.month_rows(), vec![Month { id: 1, month: 9, year: 2025 }]);
    let v = show(0, 0, &db, (9, 2025));
    assert_eq!(v.sum, -3);
    assert_eq!(v.rows.len(), 1);
}

#[test]
fn loaded_rows_continue_identities() {
    let months = vec![Month { id: 2, month: 1, year: 2024 }, Month { id: 5, month: 2, year: 2024 }];
    let entrys = vec![EntryRow { id: 7, name: "A".to_string(), amount: 1, is_expense: 0, month_id: 5 }];
    let statics = vec![Statics { id: 3, name: "S".to_string(), amount: -2, is_expense: 1 }];
    let mut db = Database::from_rows(months, entrys, statics).unwrap();
    assert_eq!(month_entries(&db, 2, 2024), vec![("A".to_string(), 1, 0)]);
    let m = db.create_month(3, 2024).unwrap();
    assert_eq!(m.id, 6);
    let rows = db.entry_rows();
    assert_eq!(rows.len(), 2);
    assert_eq!(rows[1].id, 8);
    assert_eq!(rows[1].month_id, 6);
    db.new_static("T", 4).unwrap();
    assert_eq!(db.get_statics()[1].id, 4);
}

#[test]
fn loaded_months_out_of_order_are_refused() {
    let months = vec![Month { id: 5, month: 1, year: 2024 }, Month { id: 2, month: 2, year: 2024 }];
    assert_eq!(Database::from_rows(months, vec![], vec![]).err(), Some(LedgerError::Inconsistent));
}

#[test]
fn loaded_largest_identity_is_refused() {
    let statics = vec![Statics { id: usize::MAX, name: "S".to_string(), amount: 1, is_expense: 0 }];
    assert_eq!(Database::from_rows(vec![], vec![], statics).err(), Some(LedgerError::Inconsistent));
}

#[test]
fn exhausted_identities_are_reported() {
    let statics = vec![Statics { id: usize::MAX - 1, name: "S".to_string(), amount: 1, is_expense: 0 }];
    let mut db = Database::from_rows(vec![], vec![], statics).unwrap();
    assert_eq!(db.new_static("T", 1), Err(LedgerError::IdsExhausted));
    assert_eq!(db.get_statics().len(), 1);
    let months = vec![Month { id: usize::MAX - 1, month: 1, year: 2024 }];
    let mut db = Database::from_rows(months, vec![], vec![]).unwrap();
    assert_eq!(db.create_month(2, 2024), Err(LedgerError::IdsExhausted));
    assert_eq!(db.new_entry("X", 1, 2, 2024), Err(LedgerError::IdsExhausted));
    assert_eq!(db.new_entry("X", 1, 1, 2024), Ok(()));
    assert_eq!(db.month_rows().len(), 1);
}


#[test]
fn decimal_text_of_numbers() {
    assert_eq!(decimal(0), "0");
    assert_eq!(decimal(7), "7");
    assert_eq!(decimal(-1000), "-1000");
    assert_eq!(decimal(1234567890), "1234567890");
    assert_eq!(decimal(i128::MAX), i128::MAX.to_string());
    assert_eq!(decimal(i128::MIN), i128::MIN.to_string());
}

#[test]
fn amount_wider_than_column_is_not_cut() {
    let v = render_entries(&vec![entry("Big", -123456789012)]);
    assert_eq!(v.rows[0].amount, "-123456789012");
}
