use std::cell::RefCell;

use crustynab::calendar_weeks::MonthWeek;
use crustynab::config::{OutputFormat, SimpleOutputFormat};
use crustynab::date::Date;
use crustynab::report::{Cadence, GroupTotalRow, ReportError, ReportRow};
use crustynab::weekly_report::{
    build_week_tables, fetch_watched_categories, fetch_week_report, RunError, WatchedLedger,
};
use crustynab::ynab::{
    BudgetSummary, Category, CategoryGroup, SubTransaction, Transaction, YnabApi,
};
use indexmap::IndexMap;

fn day(year: i32, month: u32, day: u32) -> Date {
    Date::from_ymd_opt(year, month, day).expect("valid date")
}

fn category(id: &str, name: &str, group: &str, budgeted: i64, balance: i64) -> Category {
    Category {
        id: id.to_string(),
        name: name.to_string(),
        category_group_name: Some(group.to_string()),
        budgeted,
        balance,
        goal_cadence: None,
        goal_target: None,
        hidden: false,
    }
}

fn txn(date: Date, amount: i64, category: Option<&str>) -> Transaction {
    Transaction {
        id: "t".to_string(),
        date,
        amount,
        payee_name: None,
        category_name: category.map(str::to_string),
        subtransactions: vec![],
    }
}

fn row(group: &str, name: &str, budgeted: i64, spent: i64, balance: i64) -> ReportRow {
    ReportRow {
        category_group_name: group.to_string(),
        category_name: name.to_string(),
        budgeted,
        spent,
        balance,
        goal_cadence: Cadence::Annual,
    }
}

fn total(group: &str, budgeted: i64, spent: i64, balance: i64) -> GroupTotalRow {
    GroupTotalRow { category_group_name: group.to_string(), budgeted, spent, balance }
}

fn watch_list(names: &[&str]) -> IndexMap<String, String> {
    names.iter().map(|name| (name.to_string(), "#dfe7f5".to_string())).collect()
}

/// A ledger held in memory that notes what it is asked.
struct FakeLedger {
    budgets: Vec<BudgetSummary>,
    groups: Vec<CategoryGroup>,
    transactions: Vec<Transaction>,
    failing: Option<&'static str>,
    asked: RefCell<Vec<String>>,
}

impl FakeLedger {
    fn new() -> FakeLedger {
        let mut hidden = category("c-old", "Old", "Fun", 1, 1);
        hidden.hidden = true;
        FakeLedger {
            budgets: vec![
                BudgetSummary { id: "b-1".into(), name: "Other".into() },
                BudgetSummary { id: "b-2".into(), name: "Home".into() },
            ],
            groups: vec![
                CategoryGroup {
                    id: "g-1".into(),
                    name: "Fun".into(),
                    hidden: false,
                    deleted: false,
                    categories: vec![category("c-games", "Games", "Fun", 20000, 17000), hidden],
                },
                CategoryGroup {
                    id: "g-2".into(),
                    name: "Essentials".into(),
                    hidden: false,
                    deleted: false,
                    categories: vec![
                        category("c-rent", "Rent", "Essentials", 100000, 75000),
                        category("c-food", "Groceries", "Essentials", 50000, 31500),
                    ],
                },
                CategoryGroup {
                    id: "g-3".into(),
                    name: "Savings".into(),
                    hidden: false,
                    deleted: false,
                    categories: vec![category("c-pension", "Pension", "Savings", 5, 5)],
                },
            ],
            transactions: vec![
                txn(day(2024, 3, 10), -18500, Some("Groceries")),
                txn(day(2024, 3, 16), -4000, Some("Games")),
                txn(day(2024, 3, 17), -999, Some("Games")),
                txn(day(2024, 3, 12), -300, Some("Pension")),
                txn(day(2024, 3, 12), -400, None),
                Transaction {
                    subtransactions: vec![
                        SubTransaction {
                            amount: -2000,
                            payee_name: None,
                            category_name: Some("Groceries".into()),
                        },
                        SubTransaction { amount: -50, payee_name: None, category_name: None },
                    ],
                    ..txn(day(2024, 3, 13), -2050, Some("Split"))
                },
            ],
            failing: None,
            asked: RefCell::new(vec![]),
        }
    }

    fn failing(call: &'static str) -> FakeLedger {
        FakeLedger { failing: Some(call), ..FakeLedger::new() }
    }

    fn answer<T>(&self, call: &'static str, question: String, value: T) -> Result<T, String> {
        self.asked.borrow_mut().push(question);
        if self.failing == Some(call) {
            Err(format!("{call} failed"))
        } else {
            Ok(value)
        }
    }
}

impl YnabApi for FakeLedger {
    type Error = String;

    fn get_budgets(&self) -> Result<Vec<BudgetSummary>, String> {
        self.answer("budgets", "budgets".to_string(), self.budgets.clone())
    }

    fn get_category_groups(&self, budget_id: &str) -> Result<Vec<CategoryGroup>, String> {
        self.answer("groups", format!("groups of {budget_id}"), self.groups.clone())
    }

    fn get_month_category(
        &self,
        budget_id: &str,
        month: Date,
        category_id: &str,
    ) -> Result<Category, String> {
        let found = self
            .groups
            .iter()
            .flat_map(|group| group.categories.iter())
            .find(|category| category.id == category_id)
            .cloned()
            .expect("known category");
        let in_month = Category { budgeted: found.budgeted + 1, ..found };
        self.answer(
            "category",
            format!(
                "category {category_id} of {budget_id} in {}-{}-{}",
                month.year, month.month, month.day
            ),
            in_month,
        )
    }

    fn get_transactions(&self, budget_id: &str, since: Date) -> Result<Vec<Transaction>, String> {
        self.answer(
            "transactions",
            format!("transactions of {budget_id} since {}-{}-{}", since.year, since.month, since.day),
            self.transactions.clone(),
        )
    }
}

fn watched(api: &FakeLedger, names: &[&str]) -> WatchedLedger {
    fetch_watched_categories(api, "Home", &watch_list(names)).expect("watched categories")
}

#[test]
fn watched_categories_come_from_the_named_budget() {
    let api = FakeLedger::new();
    let watched = watched(&api, &["Essentials", "Travel", "Fun"]);
    assert_eq!(watched.budget_id, "b-2");
    assert_eq!(watched.category_groups, api.groups);
    assert_eq!(watched.missing_groups, vec!["Travel".to_string()]);
    let names: Vec<&str> = watched.categories_to_watch.iter().map(|c| c.name.as_str()).collect();
    assert_eq!(names, vec!["Games", "Rent", "Groceries"]);
    assert_eq!(*api.asked.borrow(), vec!["budgets", "groups of b-2"]);
}

#[test]
fn unknown_budget_ends_the_run_before_the_groups_are_read() {
    let api = FakeLedger::new();
    let result = fetch_watched_categories(&api, "home", &watch_list(&["Fun"]));
    match result {
        Err(RunError::BudgetNotFound { budget_name }) => assert_eq!(budget_name, "home"),
        other => panic!("{other:?}"),
    }
    assert_eq!(*api.asked.borrow(), vec!["budgets"]);
}

#[test]
fn ledger_failures_are_handed_on() {
    let api = FakeLedger::failing("budgets");
    match fetch_watched_categories(&api, "Home", &watch_list(&["Fun"])) {
        Err(RunError::Api(error)) => assert_eq!(error, "budgets failed"),
        other => panic!("{other:?}"),
    }
    let api = FakeLedger::failing("groups");
    match fetch_watched_categories(&api, "Home", &watch_list(&["Fun"])) {
        Err(RunError::Api(error)) => assert_eq!(error, "groups failed"),
        other => panic!("{other:?}"),
    }
    let mut api = FakeLedger::new();
    let watched = watched(&api, &["Fun", "Essentials"]);
    api.failing = Some("category");
    match fetch_week_report(&api, &watched, day(2024, 3, 13), true) {
        Err(RunError::MonthCategory(error)) => assert_eq!(error, "category failed"),
        other => panic!("{other:?}"),
    }
    assert_eq!(api.asked.borrow().len(), 3);
    api.failing = Some("transactions");
    match fetch_week_report(&api, &watched, day(2024, 3, 13), true) {
        Err(RunError::Api(error)) => assert_eq!(error, "transactions failed"),
        other => panic!("{other:?}"),
    }
}

#[test]
fn week_report_is_made_from_what_the_ledger_hands_out() {
    let api = FakeLedger::new();
    let watched = watched(&api, &["Essentials", "Fun"]);
    let report = fetch_week_report(&api, &watched, day(2024, 3, 13), false).expect("report");
    assert_eq!(
        report.week,
        MonthWeek {
            month: 3,
            week_start: day(2024, 3, 10),
            week_end: day(2024, 3, 16),
            week_number: 11,
        }
    );
    assert_eq!(
        *api.asked.borrow(),
        vec![
            "budgets",
            "groups of b-2",
            "category c-games of b-2 in 2024-3-10",
            "category c-rent of b-2 in 2024-3-10",
            "category c-food of b-2 in 2024-3-10",
            "transactions of b-2 since 2024-3-10",
        ]
    );
    assert_eq!(report.transactions, api.transactions);
    let budgeted: Vec<i64> = report.month_categories.iter().map(|c| c.budgeted).collect();
    assert_eq!(budgeted, vec![20001, 100001, 50001]);
    assert_eq!(
        report.tables.report_table,
        vec![
            row("Essentials", "Groceries", 50001, -20500, 31500),
            row("Essentials", "Rent", 100001, 0, 75000),
            row("Fun", "Games", 20001, -4000, 17000),
        ]
    );
    assert_eq!(
        report.tables.display_rows,
        vec![
            row("Essentials", "Groceries", 50001, -20500, 31500),
            row("Fun", "Games", 20001, -4000, 17000),
        ]
    );
    assert_eq!(
        report.tables.group_totals,
        vec![
            total("Essentials", 150002, -20500, 106500),
            total("Fun", 20001, -4000, 17000),
            total("Total", 170003, -24500, 123500),
        ]
    );
    let all = fetch_week_report(&api, &watched, day(2024, 3, 16), true).expect("report");
    assert_eq!(all.week, report.week);
    assert_eq!(all.tables.report_table, report.tables.report_table);
    assert_eq!(all.tables.display_rows, report.tables.report_table);
    assert_eq!(all.tables.group_totals, report.tables.group_totals);
}

#[test]
fn nothing_watched_gives_an_empty_report_whatever_was_spent() {
    let mut api = FakeLedger::new();
    api.transactions = vec![
        txn(day(2024, 3, 12), i64::MAX, Some("Games")),
        txn(day(2024, 3, 12), i64::MAX, Some("Games")),
    ];
    let nothing = watched(&api, &["Travel"]);
    assert!(nothing.categories_to_watch.is_empty());
    let report = fetch_week_report(&api, &nothing, day(2024, 3, 13), true).expect("report");
    assert!(report.month_categories.is_empty());
    assert!(report.tables.report_table.is_empty());
    assert_eq!(report.tables.group_totals, vec![total("Total", 0, 0, 0)]);
    let games = watched(&api, &["Fun"]);
    match fetch_week_report(&api, &games, day(2024, 3, 13), true) {
        Err(RunError::Report(ReportError::SpentOutOfRange { category_name })) => {
            assert_eq!(category_name, "Games")
        }
        other => panic!("{other:?}"),
    }
}

#[test]
fn week_tables_of_a_week_without_categories() {
    let week = MonthWeek {
        month: 3,
        week_start: day(2024, 3, 10),
        week_end: day(2024, 3, 16),
        week_number: 11,
    };
    let tables =
        build_week_tables(&[], &[txn(day(2024, 3, 12), -5, Some("Games"))], &week, false).unwrap();
    assert!(tables.report_table.is_empty());
    assert!(tables.display_rows.is_empty());
    assert_eq!(tables.group_totals, vec![total("Total", 0, 0, 0)]);
}

#[test]
fn week_tables_refuse_sums_out_of_range() {
    let week = MonthWeek {
        month: 3,
        week_start: day(2024, 3, 10),
        week_end: day(2024, 3, 16),
        week_number: 11,
    };
    let categories = vec![
        category("c-1", "Games", "Fun", i64::MAX, 0),
        category("c-2", "Books", "Fun", 1, 0),
    ];
    let inside = day(2024, 3, 12);
    let outside = day(2024, 3, 17);
    assert_eq!(
        build_week_tables(&categories, &[], &week, true),
        Err(ReportError::TotalOutOfRange { group_name: "Fun".to_string() })
    );
    let spending = vec![txn(inside, i64::MIN, Some("Books")), txn(inside, -1, Some("Books"))];
    assert_eq!(
        build_week_tables(&categories[1..], &spending, &week, true),
        Err(ReportError::SpentOutOfRange { category_name: "Books".to_string() })
    );
    let later = vec![txn(inside, i64::MIN, Some("Books")), txn(outside, -1, Some("Books"))];
    let tables = build_week_tables(&categories[1..], &later, &week, false).unwrap();
    assert_eq!(tables.report_table, vec![row("Fun", "Books", 1, i64::MIN, 0)]);
    assert_eq!(tables.display_rows, tables.report_table);
}

#[test]
fn reports_are_printed_as_tables_by_default() {
    assert!(matches!(
        OutputFormat::default(),
        OutputFormat::Simple(SimpleOutputFormat::PolarsPrint)
    ));
}
