//! The report of the week of a date, from the ledger to its tables.
//!
//! [`fetch_watched_categories`] and [`fetch_week_report`] ask the ledger for
//! what the report needs, in the order in which each answer decides the next
//! question, and hand the answers to [`build_week_tables`], which makes the
//! tables.

use crate::calendar_weeks::{month_week_for_date, partition, supported_year, MonthWeek};
use crate::date::Date;
use crate::report::{
    all_transaction_rows, build_category_group_totals_table, build_report_table,
    categories_of_groups, categories_to_polars, category_rows, fits_amount, get_budget_id,
    is_totals_table, joined_rows, missing_groups, missing_names, relevant_transactions,
    report_table, rows_in_order, rows_in_window, rows_with_spending, spending_rows,
    spent_in_category, totals_out_of_range, transactions_to_polars, watched_categories,
    GroupTotalRow, ReportError, ReportErrorView, ReportRow, ReportRowView,
};
use crate::report_laws::lemma_sorted_rows;
use crate::watch_list::{watch_list_keys, watch_list_names};
use crate::ynab::{Category, CategoryGroup, CategoryView, Transaction, TransactionView, YnabApi};
use vstd::pervasive::unreached;
use vstd::prelude::*;

verus! {

/// The tables of the report of one week.
#[derive(Debug, Clone, PartialEq, Eq)]
pub struct WeekTables {
    /// A row for each category, in the order of the report.
    pub report_table: Vec<ReportRow>,
    /// The rows to show: all of them, or those in which something was spent.
    pub display_rows: Vec<ReportRow>,
    /// The totals of each group and of the whole report.
    pub group_totals: Vec<GroupTotalRow>,
}

/// What a report covers: the budget, its category groups, and the categories
/// of the groups that the watch list names.
#[derive(Debug, Clone, PartialEq, Eq)]
pub struct WatchedLedger {
    /// The identifier of the budget.
    pub budget_id: String,
    /// The category groups of the budget.
    pub category_groups: Vec<CategoryGroup>,
    /// The names of the watch list that no category group has.
    pub missing_groups: Vec<String>,
    /// The visible categories of the watched groups.
    pub categories_to_watch: Vec<Category>,
}

/// The report of one week, with what the ledger handed out for it.
#[derive(Debug, Clone, PartialEq, Eq)]
pub struct WeekReport {
    /// The week of the report.
    pub week: MonthWeek,
    /// The watched categories, as they stand in the month of the week's
    /// first day.
    pub month_categories: Vec<Category>,
    /// The transactions since the first day of the week.
    pub transactions: Vec<Transaction>,
    /// The tables of the report.
    pub tables: WeekTables,
}

/// Why no report could be made.
#[derive(Debug)]
pub enum RunError<E> {
    /// The ledger could not be read.
    Api(E),
    /// A watched category could not be read as it stands in the month.
    MonthCategory(E),
    /// The ledger has no budget of the given name.
    BudgetNotFound { budget_name: String },
    /// The tables could not be made.
    Report(ReportError),
}

/// The names of the categories, in their order.
pub open spec fn names_of(categories: Seq<CategoryView>) -> Seq<Seq<char>> {
    Seq::new(categories.len(), |i: int| categories[i].name)
}

/// The report table of a week: a row for each category, with what the
/// transactions spent in it within the week.
pub open spec fn week_table(
    categories: Seq<CategoryView>,
    transactions: Seq<TransactionView>,
    week: MonthWeek,
) -> Seq<ReportRowView> {
    report_table(
        category_rows(categories),
        rows_in_window(all_transaction_rows(transactions), week.week_start, week.week_end),
        names_of(categories),
    )
}

/// What the transactions spent in a category within a week.
pub open spec fn week_spending(
    transactions: Seq<TransactionView>,
    week: MonthWeek,
    category_name: Seq<char>,
) -> int {
    spent_in_category(
        rows_in_window(all_transaction_rows(transactions), week.week_start, week.week_end),
        category_name,
    )
}

/// Whether the tables of a week are refused with `error`: what was spent in
/// the category that the error names is a sum that no amount can hold, and
/// the category is the first of which this holds; or every such sum can be
/// held, and the totals of the week's report table are out of range for the
/// group that the error names.
pub open spec fn week_tables_refused(
    categories: Seq<CategoryView>,
    transactions: Seq<TransactionView>,
    week: MonthWeek,
    error: ReportErrorView,
) -> bool {
    match error {
        ReportErrorView::SpentOutOfRange { category_name } => exists|i: int|
            {
                &&& 0 <= i < categories.len()
                &&& (#[trigger] categories[i]).name == category_name
                &&& !fits_amount(week_spending(transactions, week, category_name))
                &&& forall|k: int|
                    0 <= k < i ==> fits_amount(
                        week_spending(transactions, week, (#[trigger] categories[k]).name),
                    )
            },
        ReportErrorView::TotalOutOfRange { group_name } => {
            &&& forall|k: int|
                0 <= k < categories.len() ==> fits_amount(
                    week_spending(transactions, week, (#[trigger] categories[k]).name),
                )
            &&& totals_out_of_range(week_table(categories, transactions, week), group_name)
        },
    }
}

/// Where there are no categories, the tables of a week are never refused.
pub proof fn lemma_no_categories_never_refused(
    transactions: Seq<TransactionView>,
    week: MonthWeek,
    error: ReportErrorView,
)
    ensures
        !week_tables_refused(Seq::empty(), transactions, week, error),
{
    let categories = Seq::<CategoryView>::empty();
    let rows = rows_in_window(all_transaction_rows(transactions), week.week_start, week.week_end);
    let joined = joined_rows(category_rows(categories), rows, names_of(categories));
    lemma_sorted_rows(joined);
    let table = week_table(categories, transactions, week);
    assert(table.len() == 0);
}

/// The names of the categories, in their order.
fn category_names(categories: &[Category]) -> (names: Vec<String>)
    ensures
        names.deep_view() == names_of(categories.deep_view()),
{
    let mut names: Vec<String> = Vec::new();
    let mut i: usize = 0;
    while i < categories.len()
        invariant
            i <= categories.len(),
            names.len() == i,
            forall|k: int| 0 <= k < i ==> (#[trigger] names[k])@ == categories[k].name@,
        decreases categories.len() - i,
    {
        names.push(categories[i].name.clone());
        i += 1;
    }
    assert(names.deep_view() =~= names_of(categories.deep_view()));
    names
}

/// A copy of the rows.
fn copy_of_rows(rows: &Vec<ReportRow>) -> (copy: Vec<ReportRow>)
    ensures
        copy.deep_view() == rows.deep_view(),
{
    let mut copy: Vec<ReportRow> = Vec::new();
    let mut i: usize = 0;
    while i < rows.len()
        invariant
            i <= rows.len(),
            copy.len() == i,
            forall|k: int| 0 <= k < i ==> (#[trigger] copy[k])@ == rows[k]@,
        decreases rows.len() - i,
    {
        copy.push(rows[i].duplicate());
        i += 1;
    }
    assert(copy.deep_view() =~= rows.deep_view());
    copy
}

/// The tables of the report of `week`: the report table of the categories
/// with what `transactions` spent in each within the week, the rows of it to
/// show, and its totals. Sums that no amount can hold are refused: what was
/// spent in a category, for the first such category, or else the totals.
pub fn build_week_tables(
    month_categories: &[Category],
    transactions: &[Transaction],
    week: &MonthWeek,
    show_all_rows: bool,
) -> (tables: Result<WeekTables, ReportError>)
    ensures
        match tables {
            Ok(tables) => {
                &&& tables.report_table.deep_view() == week_table(
                    month_categories.deep_view(),
                    transactions.deep_view(),
                    *week,
                )
                &&& tables.display_rows.deep_view() == if show_all_rows {
                    tables.report_table.deep_view()
                } else {
                    spending_rows(tables.report_table.deep_view())
                }
                &&& is_totals_table(
                    tables.group_totals.deep_view(),
                    tables.report_table.deep_view(),
                )
                &&& tables.report_table.len() == month_categories.len()
                &&& rows_in_order(tables.report_table.deep_view())
            },
            Err(error) => week_tables_refused(
                month_categories.deep_view(),
                transactions.deep_view(),
                *week,
                error@,
            ),
        },
{
    let categories_budgeted = categories_to_polars(month_categories);
    let transactions_frame = transactions_to_polars(transactions);
    let transactions_frame = relevant_transactions(
        transactions_frame,
        week.week_start,
        week.week_end,
    );
    let names = category_names(month_categories);
    proof {
        let categories = month_categories.deep_view();
        assert forall|k: int| 0 <= k < categories.len() implies names_of(categories).contains(
            (#[trigger] category_rows(categories)[k]).category_name,
        ) by {
            assert(names_of(categories)[k] == categories[k].name);
        }
        assert forall|k: int| 0 <= k < categories.len() implies (#[trigger] categories[k]).name
            == category_rows(categories)[k].category_name by {}
    }
    let report_table = match build_report_table(categories_budgeted, transactions_frame, &names) {
        Ok(table) => table,
        Err(error) => {
            return Err(error);
        },
    };
    let display_rows = if show_all_rows {
        copy_of_rows(&report_table)
    } else {
        rows_with_spending(&report_table)
    };
    let group_totals = match build_category_group_totals_table(copy_of_rows(&report_table)) {
        Ok(totals) => totals,
        Err(error) => {
            return Err(error);
        },
    };
    Ok(WeekTables { report_table, display_rows, group_totals })
}

/// What a report covers, as `api` hands it out: the first budget named
/// `budget_name`, its category groups, the names of the watch list that none
/// of the groups has, and the visible categories of the watched groups.
pub fn fetch_watched_categories<A: YnabApi>(
    api: &A,
    budget_name: &str,
    watch_list: &indexmap::IndexMap<String, String>,
) -> (watched: Result<WatchedLedger, RunError<A::Error>>)
    ensures
        match watched {
            Ok(watched) => {
                &&& watched.missing_groups.deep_view() == missing_names(
                    watched.category_groups.deep_view(),
                    watch_list_keys(*watch_list),
                )
                &&& watched.categories_to_watch.deep_view() == watched_categories(
                    watched.category_groups.deep_view(),
                    watch_list_keys(*watch_list),
                )
            },
            Err(RunError::BudgetNotFound { budget_name: name }) => name@ == budget_name@,
            Err(RunError::Api(_)) => true,
            Err(_) => false,
        },
{
    let budgets = match api.get_budgets() {
        Ok(budgets) => budgets,
        Err(error) => {
            return Err(RunError::Api(error));
        },
    };
    let budget_id = match get_budget_id(budgets.as_slice(), budget_name) {
        Some(id) => id,
        None => {
            return Err(RunError::BudgetNotFound { budget_name: budget_name.to_owned() });
        },
    };
    let category_groups = match api.get_category_groups(budget_id.as_str()) {
        Ok(groups) => groups,
        Err(error) => {
            return Err(RunError::Api(error));
        },
    };
    let watched_names = watch_list_names(watch_list);
    let missing_groups = missing_groups(category_groups.as_slice(), &watched_names);
    let categories_to_watch = categories_of_groups(category_groups.as_slice(), &watched_names);
    Ok(WatchedLedger { budget_id, category_groups, missing_groups, categories_to_watch })
}

/// The report of the week of `resolution_day`, made from what `api` hands
/// out: each watched category as it stands in the month of the week's first
/// day, and the transactions since that day. A report that is made holds what
/// the ledger handed out, and its tables are the tables of the week in which
/// `resolution_day` lies, made from that. The tables are refused only for
/// categories, as many as are watched, and transactions of which the tables
/// of that week are refused, and never where nothing is watched.
#[verifier::loop_isolation(false)]
pub fn fetch_week_report<A: YnabApi>(
    api: &A,
    watched: &WatchedLedger,
    resolution_day: Date,
    show_all_rows: bool,
) -> (report: Result<WeekReport, RunError<A::Error>>)
    requires
        resolution_day.wf(),
        supported_year(resolution_day.year as int),
    ensures
        match report {
            Ok(report) => {
                &&& report.week.contains(resolution_day)
                &&& partition(resolution_day.year as int).contains(report.week)
                &&& report.month_categories.len() == watched.categories_to_watch.len()
                &&& report.tables.report_table.deep_view() == week_table(
                    report.month_categories.deep_view(),
                    report.transactions.deep_view(),
                    report.week,
                )
                &&& report.tables.display_rows.deep_view() == if show_all_rows {
                    report.tables.report_table.deep_view()
                } else {
                    spending_rows(report.tables.report_table.deep_view())
                }
                &&& is_totals_table(
                    report.tables.group_totals.deep_view(),
                    report.tables.report_table.deep_view(),
                )
                &&& rows_in_order(report.tables.report_table.deep_view())
            },
            Err(RunError::Report(error)) => {
                &&& watched.categories_to_watch.len() > 0
                &&& exists|
                    categories: Seq<CategoryView>,
                    transactions: Seq<TransactionView>,
                    week: MonthWeek,
                |
                    {
                        &&& #[trigger] week_tables_refused(categories, transactions, week, error@)
                        &&& categories.len() == watched.categories_to_watch.len()
                        &&& week.contains(resolution_day)
                        &&& partition(resolution_day.year as int).contains(week)
                    }
            },
            Err(RunError::BudgetNotFound { .. }) => false,
            Err(RunError::Api(_)) => true,
            Err(RunError::MonthCategory(_)) => watched.categories_to_watch.len() > 0,
        },
{
    let week = match month_week_for_date(resolution_day) {
        Ok(week) => week,
        Err(_) => {
            unreached()
        },
    };

    let mut month_categories: Vec<Category> = Vec::new();
    let mut i: usize = 0;
    while i < watched.categories_to_watch.len()
        invariant
            i <= watched.categories_to_watch.len(),
            month_categories.len() == i,
        decreases watched.categories_to_watch.len() - i,
    {
        match api.get_month_category(
            watched.budget_id.as_str(),
            week.week_start,
            watched.categories_to_watch[i].id.as_str(),
        ) {
            Ok(category) => {
                month_categories.push(category);
            },
            Err(error) => {
                return Err(RunError::MonthCategory(error));
            },
        }
        i += 1;
    }

    let transactions = match api.get_transactions(watched.budget_id.as_str(), week.week_start) {
        Ok(transactions) => transactions,
        Err(error) => {
            return Err(RunError::Api(error));
        },
    };

    match build_week_tables(
        month_categories.as_slice(),
        transactions.as_slice(),
        &week,
        show_all_rows,
    ) {
        Ok(tables) => Ok(WeekReport { week, month_categories, transactions, tables }),
        Err(error) => {
            proof {
                assert(week_tables_refused(
                    month_categories.deep_view(),
                    transactions.deep_view(),
                    week,
                    error@,
                ));
                if month_categories.len() == 0 {
                    assert(month_categories.deep_view() =~= Seq::empty());
                    lemma_no_categories_never_refused(transactions.deep_view(), week, error@);
                }
            }
            Err(RunError::Report(error))
        },
    }
}

} // verus!
