use crustynab::date::Date;
use crustynab::report::{
    build_category_group_totals_table, build_report_table, categories_of_groups,
    categories_to_polars, expand_transaction, get_budget_id, get_categories_to_watch,
    get_missing_category_groups, missing_groups, relevant_transactions, transactions_to_polars,
    Cadence, CategoryFrame, CategoryRow, GroupTotalRow, ReportError, ReportRow, TransactionFrame,
    TransactionRow,
};
use crustynab::ynab::{BudgetSummary, Category, CategoryGroup, SubTransaction, Transaction};
use indexmap::IndexMap;

fn date(year: i32, month: u32, day: u32) -> Date {
    Date::from_ymd_opt(year, month, day).expect("valid date")
}

fn category(name: &str, group: Option<&str>, budgeted: i64, balance: i64) -> Category {
    Category {
        id: format!("id-{name}"),
        name: name.to_string(),
        category_group_name: group.map(str::to_string),
        budgeted,
        balance,
        goal_cadence: None,
        goal_target: None,
        hidden: false,
    }
}

fn group(name: &str, categories: Vec<Category>) -> CategoryGroup {
    CategoryGroup {
        id: format!("group-{name}"),
        name: name.to_string(),
        hidden: false,
        deleted: false,
        categories,
    }
}

fn watch_list(names: &[&str]) -> IndexMap<String, String> {
    names
        .iter()
        .map(|name| (name.to_string(), "#ffffff".to_string()))
        .collect()
}

fn names(names: &[&str]) -> Vec<String> {
    names.iter().map(|name| name.to_string()).collect()
}

fn txn(day: Date, amount: i64, payee: Option<&str>, category: Option<&str>) -> Transaction {
    Transaction {
        id: "t".to_string(),
        date: day,
        amount,
        payee_name: payee.map(str::to_string),
        category_name: category.map(str::to_string),
        subtransactions: vec![],
    }
}

fn sub(amount: i64, payee: Option<&str>, category: Option<&str>) -> SubTransaction {
    SubTransaction {
        amount,
        payee_name: payee.map(str::to_string),
        category_name: category.map(str::to_string),
    }
}

fn tx_row(day: Date, amount: i64, payee: Option<&str>, category: &str) -> TransactionRow {
    TransactionRow {
        date: day,
        amount,
        payee_name: payee.map(str::to_string),
        category_name: category.to_string(),
    }
}

fn cat_row(name: &str, group: &str, budgeted: i64, balance: i64, cadence: Cadence) -> CategoryRow {
    CategoryRow {
        category_name: name.to_string(),
        category_group_name: group.to_string(),
        budgeted,
        balance,
        goal_cadence: cadence,
    }
}

fn report_row(group: &str, name: &str, budgeted: i64, spent: i64, balance: i64) -> ReportRow {
    ReportRow {
        category_group_name: group.to_string(),
        category_name: name.to_string(),
        budgeted,
        spent,
        balance,
        goal_cadence: Cadence::Annual,
    }
}

fn total_row(group: &str, budgeted: i64, spent: i64, balance: i64) -> GroupTotalRow {
    GroupTotalRow {
        category_group_name: group.to_string(),
        budgeted,
        spent,
        balance,
    }
}

#[test]
fn budget_id_of_the_first_budget_with_the_name() {
    let budgets = vec![
        BudgetSummary { id: "budget-0".into(), name: "home".into() },
        BudgetSummary { id: "budget-1".into(), name: "work".into() },
        BudgetSummary { id: "budget-2".into(), name: "work".into() },
    ];
    assert_eq!(get_budget_id(&budgets, "work"), Some("budget-1".to_string()));
    assert_eq!(get_budget_id(&budgets, "home"), Some("budget-0".to_string()));
}

#[test]
fn budget_id_of_an_unknown_name_is_none() {
    let budgets = vec![BudgetSummary { id: "budget-0".into(), name: "home".into() }];
    assert_eq!(get_budget_id(&budgets, "Home"), None);
    assert_eq!(get_budget_id(&budgets, ""), None);
    assert_eq!(get_budget_id(&[], "home"), None);
}

#[test]
fn missing_groups_are_the_watched_names_without_a_group() {
    let groups = vec![group("Fun", vec![]), group("Bills", vec![])];
    let watch = watch_list(&["Essentials", "Fun", "Travel"]);
    assert_eq!(
        get_missing_category_groups(&groups, &watch),
        names(&["Essentials", "Travel"])
    );
    assert_eq!(
        get_missing_category_groups(&groups, &watch_list(&["Bills", "Fun"])),
        Vec::<String>::new()
    );
    assert_eq!(
        get_missing_category_groups(&[], &watch_list(&["b", "a"])),
        names(&["b", "a"])
    );
    assert_eq!(
        missing_groups(&groups, &names(&["x", "Fun", "x"])),
        names(&["x", "x"])
    );
}

#[test]
fn watch_list_without_its_group_gives_an_empty_report() {
    let groups = vec![group("Fun", vec![category("Games", Some("Fun"), 20000, 17000)])];
    let watch = watch_list(&["Essentials"]);
    assert_eq!(get_missing_category_groups(&groups, &watch), names(&["Essentials"]));
    let watched = get_categories_to_watch(&groups, &watch);
    assert!(watched.is_empty());
    let table = build_report_table(
        categories_to_polars(&watched),
        transactions_to_polars(&[txn(date(2024, 3, 12), -3000, None, Some("Games"))]),
        &vec![],
    )
    .unwrap();
    assert!(table.is_empty());
    let totals = build_category_group_totals_table(table).unwrap();
    assert_eq!(totals, vec![total_row("Total", 0, 0, 0)]);
}

#[test]
fn watched_categories_are_the_visible_ones_of_the_watched_groups() {
    let mut hidden = category("Old", Some("Fun"), 1, 2);
    hidden.hidden = true;
    let groups = vec![
        group("Fun", vec![category("Games", Some("Fun"), 20000, 17000), hidden]),
        group("Bills", vec![category("Rent", Some("Bills"), 100000, 75000)]),
        group(
            "Essentials",
            vec![
                category("Groceries", Some("Essentials"), 50000, 31500),
                category("Games", Some("Essentials"), 5, 6),
            ],
        ),
    ];
    let watched = get_categories_to_watch(&groups, &watch_list(&["Essentials", "Fun", "None"]));
    let got: Vec<(&str, i64)> = watched.iter().map(|c| (c.name.as_str(), c.budgeted)).collect();
    assert_eq!(got, vec![("Games", 20000), ("Groceries", 50000), ("Games", 5)]);
    assert_eq!(watched[1], groups[2].categories[0]);
    assert_eq!(
        categories_of_groups(&groups, &names(&["Bills"])),
        vec![groups[1].categories[0].clone()]
    );
    assert!(categories_of_groups(&groups, &vec![]).is_empty());
}

#[test]
fn transaction_without_subtransactions_gives_one_row_or_none() {
    let day = date(2024, 3, 12);
    assert_eq!(
        expand_transaction(&txn(day, -18500, Some("Shop"), Some("Groceries"))),
        vec![tx_row(day, -18500, Some("Shop"), "Groceries")]
    );
    assert_eq!(
        expand_transaction(&txn(day, -18500, None, Some(""))),
        vec![tx_row(day, -18500, None, "")]
    );
    assert!(expand_transaction(&txn(day, -18500, Some("Shop"), None)).is_empty());
}

#[test]
fn split_transaction_gives_a_row_for_each_categorized_part() {
    let day = date(2024, 3, 12);
    let mut split = txn(day, -30000, Some("Market"), Some("Split"));
    split.subtransactions = vec![
        sub(-10000, None, Some("Groceries")),
        sub(-15000, Some("Stall"), None),
        sub(-5000, Some("Baker"), Some("Treats")),
    ];
    assert_eq!(
        expand_transaction(&split),
        vec![
            tx_row(day, -10000, Some("Market"), "Groceries"),
            tx_row(day, -5000, Some("Baker"), "Treats"),
        ]
    );
    let mut nameless = txn(day, -1, None, Some("Split"));
    nameless.subtransactions = vec![sub(-1, None, Some("Groceries")), sub(-2, None, None)];
    assert_eq!(expand_transaction(&nameless), vec![tx_row(day, -1, None, "Groceries")]);
    let mut uncategorized = txn(day, -1, Some("Market"), Some("Split"));
    uncategorized.subtransactions = vec![sub(-1, None, None)];
    assert!(expand_transaction(&uncategorized).is_empty());
}

#[test]
fn subtransaction_with_an_empty_category_name_gives_no_row() {
    let day = date(2024, 3, 12);
    let mut only_empty = txn(day, -5000, None, None);
    only_empty.subtransactions = vec![sub(-5000, None, Some(""))];
    assert!(expand_transaction(&only_empty).is_empty());
    let mut mixed = txn(day, -9000, Some("Market"), Some("Split"));
    mixed.subtransactions = vec![
        sub(-1000, Some("Stall"), Some("")),
        sub(-3000, None, Some("Groceries")),
        sub(-5000, None, Some("")),
        sub(-7000, Some(""), Some(" ")),
    ];
    assert_eq!(
        expand_transaction(&mixed),
        vec![
            tx_row(day, -3000, Some("Market"), "Groceries"),
            tx_row(day, -7000, Some(""), " "),
        ]
    );
    let frame = transactions_to_polars(&[only_empty, mixed]);
    assert_eq!(frame.0.len(), 2);
    let categories = CategoryFrame(vec![cat_row("", "g", 0, 0, Cadence::Annual)]);
    let table = build_report_table(categories, frame, &names(&[""])).unwrap();
    assert_eq!(table, vec![report_row("g", "", 0, 0, 0)]);
}

#[test]
fn transaction_table_keeps_the_order_of_the_transactions() {
    let mut split = txn(date(2024, 3, 10), -30, Some("Market"), None);
    split.subtransactions = vec![sub(-10, None, Some("a")), sub(-20, None, Some("b"))];
    let frame = transactions_to_polars(&[
        txn(date(2024, 3, 12), 5, None, Some("c")),
        txn(date(2024, 3, 13), 6, None, None),
        split,
        txn(date(2024, 3, 11), 7, Some("p"), Some("a")),
    ]);
    assert_eq!(
        frame,
        TransactionFrame(vec![
            tx_row(date(2024, 3, 12), 5, None, "c"),
            tx_row(date(2024, 3, 10), -10, Some("Market"), "a"),
            tx_row(date(2024, 3, 10), -20, Some("Market"), "b"),
            tx_row(date(2024, 3, 11), 7, Some("p"), "a"),
        ])
    );
    assert_eq!(transactions_to_polars(&[]), TransactionFrame(vec![]));
}

#[test]
fn category_table_names_group_and_cadence() {
    let mut monthly = category("Groceries", Some("Essentials"), 50000, 31500);
    monthly.goal_target = Some(600000);
    monthly.goal_cadence = Some(1);
    let mut yearly = category("Insurance", None, -7, 8);
    yearly.goal_target = Some(1);
    yearly.goal_cadence = Some(13);
    let mut no_target = category("Rent", Some("Bills"), 1, 2);
    no_target.goal_cadence = Some(1);
    let mut no_cadence = category("Gifts", Some(""), 3, 4);
    no_cadence.goal_target = Some(5);
    let frame = categories_to_polars(&[monthly, yearly, no_target, no_cadence]);
    assert_eq!(
        frame,
        CategoryFrame(vec![
            cat_row("Groceries", "Essentials", 50000, 31500, Cadence::Monthly),
            cat_row("Insurance", "Uncategorized", -7, 8, Cadence::Annual),
            cat_row("Rent", "Bills", 1, 2, Cadence::Annual),
            cat_row("Gifts", "", 3, 4, Cadence::Annual),
        ])
    );
    assert_eq!(Cadence::Monthly.label(), "monthly");
    assert_eq!(Cadence::Annual.label(), "annual");
}

#[test]
fn relevant_transactions_keeps_the_rows_of_the_window() {
    let rows = vec![
        tx_row(date(2024, 3, 9), 1, None, "a"),
        tx_row(date(2024, 3, 10), 2, Some("p"), "a"),
        tx_row(date(2024, 3, 16), 3, None, "b"),
        tx_row(date(2024, 3, 17), 4, None, "b"),
        tx_row(date(2023, 3, 12), 5, None, "a"),
        tx_row(date(2024, 3, 12), 6, None, "c"),
        tx_row(date(2025, 3, 12), 7, None, "a"),
        tx_row(date(2024, 2, 29), 8, None, "a"),
        tx_row(date(2024, 4, 1), 9, None, "a"),
    ];
    let kept = relevant_transactions(
        TransactionFrame(rows.clone()),
        date(2024, 3, 10),
        date(2024, 3, 16),
    );
    assert_eq!(
        kept,
        TransactionFrame(vec![rows[1].clone(), rows[2].clone(), rows[5].clone()])
    );
    let one_day =
        relevant_transactions(TransactionFrame(rows.clone()), date(2024, 3, 12), date(2024, 3, 12));
    assert_eq!(one_day, TransactionFrame(vec![rows[5].clone()]));
    let none =
        relevant_transactions(TransactionFrame(rows), date(2024, 3, 16), date(2024, 3, 10));
    assert_eq!(none, TransactionFrame(vec![]));
}

#[test]
fn report_row_of_a_category_with_one_transaction() {
    let mut groceries = category("Groceries", Some("Essentials"), 50000, 31500);
    groceries.goal_target = Some(600000);
    groceries.goal_cadence = Some(1);
    let transactions = relevant_transactions(
        transactions_to_polars(&[txn(date(2024, 3, 12), -18500, None, Some("Groceries"))]),
        date(2024, 3, 10),
        date(2024, 3, 16),
    );
    let table = build_report_table(
        categories_to_polars(&[groceries]),
        transactions,
        &names(&["Groceries"]),
    )
    .unwrap();
    assert_eq!(
        table,
        vec![ReportRow {
            category_group_name: "Essentials".to_string(),
            category_name: "Groceries".to_string(),
            budgeted: 50000,
            spent: -18500,
            balance: 31500,
            goal_cadence: Cadence::Monthly,
        }]
    );
    assert_eq!(table[0].goal_cadence.label(), "monthly");
}

#[test]
fn report_table_sums_spent_by_category() {
    let categories = CategoryFrame(vec![
        cat_row("rent", "home", 100, 1, Cadence::Annual),
        cat_row("food", "home", 200, 2, Cadence::Monthly),
        cat_row("games", "fun", 300, 3, Cadence::Annual),
        cat_row("books", "fun", 400, 4, Cadence::Annual),
        cat_row("unwatched", "fun", 500, 5, Cadence::Annual),
    ]);
    let day = date(2024, 3, 12);
    let transactions = TransactionFrame(vec![
        tx_row(day, -1000, None, "food"),
        tx_row(day, -250, Some("p"), "games"),
        tx_row(day, -2000, None, "food"),
        tx_row(day, 500, None, "food"),
        tx_row(day, -7, None, "other_food"),
        tx_row(day, -9, None, "unwatched"),
        tx_row(day, -70, None, "Food"),
    ]);
    let table = build_report_table(
        categories,
        transactions,
        &names(&["rent", "food", "games", "books", "absent"]),
    )
    .unwrap();
    assert_eq!(
        table,
        vec![
            report_row("fun", "books", 400, 0, 4),
            report_row("fun", "games", 300, -250, 3),
            report_row("fun", "unwatched", 500, 0, 5),
            ReportRow { goal_cadence: Cadence::Monthly, ..report_row("home", "food", 200, -2500, 2) },
            report_row("home", "rent", 100, 0, 1),
        ]
    );
}

#[test]
fn report_table_order_is_by_bytes_and_keeps_equal_names_in_place() {
    let categories = CategoryFrame(vec![
        cat_row("b", "a", 1, 0, Cadence::Annual),
        cat_row("a", "b", 2, 0, Cadence::Annual),
        cat_row("a", "B", 3, 0, Cadence::Annual),
        cat_row("\u{e9}", "a", 4, 0, Cadence::Annual),
        cat_row("z", "a", 5, 0, Cadence::Annual),
        cat_row("a", "ab", 6, 0, Cadence::Annual),
        cat_row("", "a", 7, 0, Cadence::Annual),
        cat_row("b", "a", 8, 0, Cadence::Annual),
        cat_row("x", "", 9, 0, Cadence::Annual),
        cat_row("ba", "a", 10, 0, Cadence::Annual),
        cat_row("\u{1f600}", "a", 11, 0, Cadence::Annual),
        cat_row("\u{ffff}", "a", 12, 0, Cadence::Annual),
    ]);
    let table = build_report_table(categories, TransactionFrame(vec![]), &vec![]).unwrap();
    let order: Vec<i64> = table.iter().map(|row| row.budgeted).collect();
    assert_eq!(order, vec![9, 3, 7, 1, 8, 10, 5, 4, 12, 11, 6, 2]);
    let mut expected: Vec<(String, String)> = table
        .iter()
        .map(|row| (row.category_group_name.clone(), row.category_name.clone()))
        .collect();
    let listed = expected.clone();
    expected.sort();
    assert_eq!(listed, expected);
}

#[test]
fn report_table_gives_equal_names_the_same_spending() {
    let categories = CategoryFrame(vec![
        cat_row("shared", "two", 1, 0, Cadence::Annual),
        cat_row("shared", "one", 2, 0, Cadence::Annual),
    ]);
    let day = date(2024, 3, 12);
    let transactions =
        TransactionFrame(vec![tx_row(day, -5, None, "shared"), tx_row(day, -6, None, "shared")]);
    let table = build_report_table(categories, transactions, &names(&["shared"])).unwrap();
    assert_eq!(
        table,
        vec![report_row("one", "shared", 2, -11, 0), report_row("two", "shared", 1, -11, 0)]
    );
}

#[test]
fn report_table_refuses_a_sum_out_of_range() {
    let categories = CategoryFrame(vec![
        cat_row("fine", "g", 0, 0, Cadence::Annual),
        cat_row("high", "g", 0, 0, Cadence::Annual),
        cat_row("low", "g", 0, 0, Cadence::Annual),
    ]);
    let day = date(2024, 3, 12);
    let transactions = TransactionFrame(vec![
        tx_row(day, i64::MAX, None, "fine"),
        tx_row(day, i64::MIN, None, "low"),
        tx_row(day, i64::MAX, None, "high"),
        tx_row(day, 1, None, "high"),
        tx_row(day, -1, None, "low"),
        tx_row(day, 1, None, "fine"),
        tx_row(day, -1, None, "fine"),
    ]);
    let all = names(&["fine", "high", "low"]);
    assert_eq!(
        build_report_table(categories.clone(), transactions.clone(), &all),
        Err(ReportError::SpentOutOfRange { category_name: "high".to_string() })
    );
    assert_eq!(
        build_report_table(categories.clone(), transactions.clone(), &names(&["fine", "low"])),
        Err(ReportError::SpentOutOfRange { category_name: "low".to_string() })
    );
    let table = build_report_table(categories, transactions, &names(&["fine"])).unwrap();
    assert_eq!(
        table,
        vec![
            report_row("g", "fine", 0, i64::MAX, 0),
            report_row("g", "high", 0, 0, 0),
            report_row("g", "low", 0, 0, 0),
        ]
    );
}

#[test]
fn group_totals_sum_the_rows_of_each_group() {
    let table = vec![
        report_row("Essentials", "Groceries", 50000, -18500, 31500),
        report_row("Essentials", "Rent", 100000, -25000, 75000),
        report_row("Fun", "Books", 10000, -4000, 6000),
        report_row("Fun", "Games", 20000, -3000, 17000),
    ];
    assert_eq!(
        build_category_group_totals_table(table).unwrap(),
        vec![
            total_row("Essentials", 150000, -43500, 106500),
            total_row("Fun", 30000, -7000, 23000),
            total_row("Total", 180000, -50500, 129500),
        ]
    );
}

#[test]
fn group_totals_end_with_the_total_row() {
    let table = vec![
        report_row("zoo", "a", 1, 10, 100),
        report_row("Total", "b", 2, 20, 200),
        report_row("Zoo", "c", 4, 40, 400),
        report_row("zoo", "d", 8, 80, 800),
        report_row("", "e", 16, 160, 1600),
    ];
    assert_eq!(
        build_category_group_totals_table(table).unwrap(),
        vec![
            total_row("", 16, 160, 1600),
            total_row("Total", 2, 20, 200),
            total_row("Zoo", 4, 40, 400),
            total_row("zoo", 9, 90, 900),
            total_row("Total", 31, 310, 3100),
        ]
    );
}

#[test]
fn total_row_is_the_sum_of_the_group_rows() {
    let table = vec![
        report_row("b", "x", 7, -3, 4),
        report_row("a", "y", -5, 11, 6),
        report_row("b", "z", 13, -17, -19),
        report_row("c", "x", 23, 29, 31),
    ];
    let totals = build_category_group_totals_table(table).unwrap();
    let (total, groups) = totals.split_last().unwrap();
    assert_eq!(total.category_group_name, "Total");
    assert_eq!(groups.iter().map(|row| row.budgeted).sum::<i64>(), total.budgeted);
    assert_eq!(groups.iter().map(|row| row.spent).sum::<i64>(), total.spent);
    assert_eq!(groups.iter().map(|row| row.balance).sum::<i64>(), total.balance);
    assert_eq!((total.budgeted, total.spent, total.balance), (38, 20, 22));
}

#[test]
fn group_totals_refuse_sums_out_of_range() {
    let high = vec![
        report_row("a", "x", 1, 1, 1),
        report_row("c", "x", i64::MAX, 0, 0),
        report_row("b", "x", 0, 0, i64::MIN),
        report_row("c", "y", 1, 0, 0),
        report_row("b", "y", 0, 0, -1),
    ];
    assert_eq!(
        build_category_group_totals_table(high),
        Err(ReportError::TotalOutOfRange { group_name: "b".to_string() })
    );
    let whole = vec![report_row("a", "x", 0, i64::MAX, 0), report_row("b", "x", 0, 1, 0)];
    assert_eq!(
        build_category_group_totals_table(whole),
        Err(ReportError::TotalOutOfRange { group_name: "Total".to_string() })
    );
    let balanced = vec![
        report_row("a", "x", 0, i64::MAX, 0),
        report_row("a", "y", 0, i64::MAX, 0),
        report_row("a", "z", 0, i64::MIN, 0),
        report_row("a", "w", 0, i64::MIN, 0),
    ];
    assert_eq!(
        build_category_group_totals_table(balanced).unwrap(),
        vec![total_row("a", 0, -2, 0), total_row("Total", 0, -2, 0)]
    );
}

#[test]
fn week_report_from_ledger_to_totals() {
    let mut groceries = category("Groceries", Some("Essentials"), 50000, 31500);
    groceries.goal_target = Some(600000);
    groceries.goal_cadence = Some(1);
    let mut hidden = category("Hidden", Some("Essentials"), 1, 1);
    hidden.hidden = true;
    let groups = vec![
        group("Fun", vec![category("Games", Some("Fun"), 20000, 17000)]),
        group("Essentials", vec![groceries, hidden, category("Rent", None, 100000, 75000)]),
        group("Savings", vec![category("Pension", Some("Savings"), 1, 1)]),
    ];
    let watch = watch_list(&["Essentials", "Fun", "Travel"]);
    assert_eq!(get_missing_category_groups(&groups, &watch), names(&["Travel"]));
    let watched = get_categories_to_watch(&groups, &watch);
    let week = crustynab::calendar_weeks::month_week_for_date(date(2024, 3, 13)).unwrap();
    let mut split = txn(date(2024, 3, 16), -9000, Some("Mall"), Some("Split"));
    split.subtransactions = vec![
        sub(-4000, None, Some("Games")),
        sub(-3000, None, None),
        sub(-2000, Some("Grocer"), Some("Groceries")),
    ];
    let transactions = vec![
        txn(date(2024, 3, 10), -18500, None, Some("Groceries")),
        txn(date(2024, 3, 9), -100, None, Some("Groceries")),
        txn(date(2024, 3, 17), -200, None, Some("Games")),
        txn(date(2024, 3, 12), -300, None, Some("Pension")),
        txn(date(2024, 3, 12), -400, None, None),
        split,
    ];
    let frame = relevant_transactions(
        transactions_to_polars(&transactions),
        week.week_start,
        week.week_end,
    );
    let category_names: Vec<String> = watched.iter().map(|c| c.name.clone()).collect();
    let table =
        build_report_table(categories_to_polars(&watched), frame, &category_names).unwrap();
    assert_eq!(
        table,
        vec![
            ReportRow {
                goal_cadence: Cadence::Monthly,
                ..report_row("Essentials", "Groceries", 50000, -20500, 31500)
            },
            report_row("Fun", "Games", 20000, -4000, 17000),
            report_row("Uncategorized", "Rent", 100000, 0, 75000),
        ]
    );
    assert_eq!(
        build_category_group_totals_table(table).unwrap(),
        vec![
            total_row("Essentials", 50000, -20500, 31500),
            total_row("Fun", 20000, -4000, 17000),
            total_row("Uncategorized", 100000, 0, 75000),
            total_row("Total", 170000, -24500, 123500),
        ]
    );
}
