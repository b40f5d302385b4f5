//! The weekly report: the watched categories of a ledger joined with what
//! was spent in each of them within a reporting window, and the totals of
//! each category group.
//!
//! All amounts are whole thousandths of the currency unit. The tables are
//! plain vectors of rows; each contract speaks of the views of the rows.
//! What holds of every report is proved in [`crate::report_laws`].

use crate::date::Date;
use crate::report_laws::{lemma_insert_place, lemma_sorted_rows};
use crate::sequences::lemma_filter_no_duplicates;
use crate::text::{
    contains_name, lemma_text_order_irreflexive, lemma_text_order_total,
    lemma_text_order_transitive, str_precedes, text_precedes,
};
use crate::watch_list::{watch_list_keys, watch_list_names};
use crate::ynab::{
    copy_of_name, BudgetSummary, Category, CategoryGroup, CategoryGroupView, CategoryView,
    SubTransactionView, Transaction, TransactionView,
};
use vstd::prelude::*;

verus! {

/// How often the goal of a category comes due.
#[derive(Debug, Clone, Copy, PartialEq, Eq, Structural)]
pub enum Cadence {
    Monthly,
    Annual,
}

impl Cadence {
    /// The label of the cadence in a report.
    pub open spec fn label_text(self) -> Seq<char> {
        match self {
            Cadence::Monthly => "monthly"@,
            Cadence::Annual => "annual"@,
        }
    }

    /// The label of the cadence in a report: `monthly` or `annual`.
    pub fn label(&self) -> (text: &'static str)
        ensures
            text@ == self.label_text(),
    {
        match self {
            Cadence::Monthly => "monthly",
            Cadence::Annual => "annual",
        }
    }
}

/// One categorized amount of a transaction.
#[derive(Debug, Clone, PartialEq, Eq)]
pub struct TransactionRow {
    pub date: Date,
    pub amount: i64,
    pub payee_name: Option<String>,
    pub category_name: String,
}

/// What a [`TransactionRow`] holds.
pub struct TransactionRowView {
    pub date: Date,
    pub amount: i64,
    pub payee_name: Option<Seq<char>>,
    pub category_name: Seq<char>,
}

impl DeepView for TransactionRow {
    type V = TransactionRowView;

    open spec fn deep_view(&self) -> TransactionRowView {
        TransactionRowView {
            date: self.date,
            amount: self.amount,
            payee_name: self.payee_name.deep_view(),
            category_name: self.category_name@,
        }
    }
}

impl View for TransactionRow {
    type V = TransactionRowView;

    open spec fn view(&self) -> TransactionRowView {
        self.deep_view()
    }
}

impl TransactionRow {
    /// A copy of the row.
    pub fn duplicate(&self) -> (copy: TransactionRow)
        ensures
            copy@ == self@,
    {
        TransactionRow {
            date: self.date,
            amount: self.amount,
            payee_name: copy_of_name(&self.payee_name),
            category_name: self.category_name.clone(),
        }
    }
}

/// A watched category as the report reads it.
#[derive(Debug, Clone, PartialEq, Eq)]
pub struct CategoryRow {
    pub category_name: String,
    pub category_group_name: String,
    pub budgeted: i64,
    pub balance: i64,
    pub goal_cadence: Cadence,
}

/// What a [`CategoryRow`] holds.
pub struct CategoryRowView {
    pub category_name: Seq<char>,
    pub category_group_name: Seq<char>,
    pub budgeted: i64,
    pub balance: i64,
    pub goal_cadence: Cadence,
}

impl DeepView for CategoryRow {
    type V = CategoryRowView;

    open spec fn deep_view(&self) -> CategoryRowView {
        CategoryRowView {
            category_name: self.category_name@,
            category_group_name: self.category_group_name@,
            budgeted: self.budgeted,
            balance: self.balance,
            goal_cadence: self.goal_cadence,
        }
    }
}

impl View for CategoryRow {
    type V = CategoryRowView;

    open spec fn view(&self) -> CategoryRowView {
        self.deep_view()
    }
}

/// The table of the watched categories.
#[derive(Debug, Clone, PartialEq, Eq)]
pub struct CategoryFrame(pub Vec<CategoryRow>);

impl View for CategoryFrame {
    type V = Seq<CategoryRowView>;

    open spec fn view(&self) -> Seq<CategoryRowView> {
        self.0.deep_view()
    }
}

/// The table of the categorized amounts.
#[derive(Debug, Clone, PartialEq, Eq)]
pub struct TransactionFrame(pub Vec<TransactionRow>);

impl View for TransactionFrame {
    type V = Seq<TransactionRowView>;

    open spec fn view(&self) -> Seq<TransactionRowView> {
        self.0.deep_view()
    }
}

/// The identifier of the first budget with the given name, if there is one.
pub fn get_budget_id(budgets: &[BudgetSummary], budget_name: &str) -> (id: Option<String>)
    ensures
        match id {
            Some(id) => exists|i: int|
                {
                    &&& 0 <= i < budgets.len()
                    &&& (#[trigger] budgets[i]).name@ == budget_name@
                    &&& budgets[i].id@ == id@
                    &&& forall|k: int| 0 <= k < i ==> (#[trigger] budgets[k]).name@ != budget_name@
                },
            None => forall|i: int|
                0 <= i < budgets.len() ==> (#[trigger] budgets[i]).name@ != budget_name@,
        },
{
    let wanted = budget_name.to_owned();
    let mut i: usize = 0;
    while i < budgets.len()
        invariant
            i <= budgets.len(),
            wanted@ == budget_name@,
            forall|k: int| 0 <= k < i ==> (#[trigger] budgets[k]).name@ != budget_name@,
        decreases budgets.len() - i,
    {
        if budgets[i].name == wanted {
            return Some(budgets[i].id.clone());
        }
        i += 1;
    }
    None
}

/// Whether one of `groups` has the given name.
pub open spec fn has_group_named(groups: Seq<CategoryGroupView>, name: Seq<char>) -> bool {
    exists|i: int| 0 <= i < groups.len() && (#[trigger] groups[i]).name == name
}

/// The names among `names` that no group has, in the order of `names`.
pub open spec fn missing_names(groups: Seq<CategoryGroupView>, names: Seq<Seq<char>>) -> Seq<
    Seq<char>,
> {
    names.filter(|name: Seq<char>| !has_group_named(groups, name))
}

/// The categories of `categories` that are not hidden, in their order.
pub open spec fn visible_categories(categories: Seq<CategoryView>) -> Seq<CategoryView> {
    categories.filter(|category: CategoryView| !category.hidden)
}

/// The visible categories of the groups whose name is one of `names`, group
/// after group.
pub open spec fn watched_categories(
    groups: Seq<CategoryGroupView>,
    names: Seq<Seq<char>>,
) -> Seq<CategoryView>
    decreases groups.len(),
{
    if groups.len() == 0 {
        Seq::empty()
    } else {
        let before = watched_categories(groups.drop_last(), names);
        if names.contains(groups.last().name) {
            before + visible_categories(groups.last().categories)
        } else {
            before
        }
    }
}

/// Whether one of `groups` has the given name.
fn group_exists(groups: &[CategoryGroup], name: &String) -> (found: bool)
    ensures
        found == has_group_named(groups.deep_view(), name@),
{
    let mut i: usize = 0;
    while i < groups.len()
        invariant
            i <= groups.len(),
            forall|k: int| 0 <= k < i ==> (#[trigger] groups[k]).name@ != name@,
        decreases groups.len() - i,
    {
        if groups[i].name == *name {
            assert(groups.deep_view()[i as int].name == name@);
            return true;
        }
        i += 1;
    }
    proof {
        if has_group_named(groups.deep_view(), name@) {
            let k = choose|k: int|
                0 <= k < groups.deep_view().len() && (#[trigger] groups.deep_view()[k]).name
                    == name@;
            assert(groups[k].name@ == name@);
        }
    }
    false
}

/// The names among `names` that none of `groups` has, in the order of
/// `names`.
pub fn missing_groups(groups: &[CategoryGroup], names: &Vec<String>) -> (missing: Vec<String>)
    ensures
        missing.deep_view() == missing_names(groups.deep_view(), names.deep_view()),
{
    let mut missing: Vec<String> = Vec::new();
    let mut i: usize = 0;
    let ghost absent = |name: Seq<char>| !has_group_named(groups.deep_view(), name);
    assert(names.deep_view().take(0) =~= Seq::empty());
    assert(missing.deep_view() =~= Seq::empty());
    while i < names.len()
        invariant
            i <= names.len(),
            absent == |name: Seq<char>| !has_group_named(groups.deep_view(), name),
            missing.deep_view() == names.deep_view().take(i as int).filter(absent),
        decreases names.len() - i,
    {
        let ghost before = missing.deep_view();
        proof {
            assert(names.deep_view().take(i + 1).drop_last() =~= names.deep_view().take(i as int));
            assert(names.deep_view().take(i + 1).last() == names[i as int]@);
            reveal(Seq::filter);
        }
        if !group_exists(groups, &names[i]) {
            missing.push(names[i].clone());
            assert(missing.deep_view() =~= before.push(names[i as int]@));
        }
        i += 1;
    }
    assert(names.deep_view().take(names.len() as int) =~= names.deep_view());
    missing
}

/// The names of the watch list that none of `groups` has, in the order of the
/// watch list, each once.
pub fn get_missing_category_groups(
    groups: &[CategoryGroup],
    watch_list: &indexmap::IndexMap<String, String>,
) -> (missing: Vec<String>)
    ensures
        missing.deep_view() == missing_names(groups.deep_view(), watch_list_keys(*watch_list)),
        missing.deep_view().no_duplicates(),
{
    let names = watch_list_names(watch_list);
    proof {
        lemma_filter_no_duplicates(
            names.deep_view(),
            |name: Seq<char>| !has_group_named(groups.deep_view(), name),
        );
    }
    missing_groups(groups, &names)
}

/// The visible categories of the groups whose name is one of `names`, group
/// after group, a category twice where two groups hold it.
pub fn categories_of_groups(groups: &[CategoryGroup], names: &Vec<String>) -> (watched: Vec<
    Category,
>)
    ensures
        watched.deep_view() == watched_categories(groups.deep_view(), names.deep_view()),
{
    let mut watched: Vec<Category> = Vec::new();
    let mut i: usize = 0;
    let ghost shown = |category: CategoryView| !category.hidden;
    assert(groups.deep_view().take(0) =~= Seq::empty());
    assert(watched.deep_view() =~= Seq::empty());
    while i < groups.len()
        invariant
            i <= groups.len(),
            shown == |category: CategoryView| !category.hidden,
            watched.deep_view() == watched_categories(
                groups.deep_view().take(i as int),
                names.deep_view(),
            ),
        decreases groups.len() - i,
    {
        let group = &groups[i];
        let ghost before = watched.deep_view();
        proof {
            assert(groups.deep_view().take(i + 1).drop_last() =~= groups.deep_view().take(
                i as int,
            ));
            assert(groups.deep_view().take(i + 1).last() == group@);
        }
        if contains_name(names, &group.name) {
            let mut j: usize = 0;
            assert(group.categories.deep_view().take(0) =~= Seq::empty());
            assert(Seq::<CategoryView>::empty().filter(shown) =~= Seq::empty()) by {
                reveal(Seq::filter);
            }
            assert(before + Seq::<CategoryView>::empty() =~= before);
            while j < group.categories.len()
                invariant
                    j <= group.categories.len(),
                    shown == |category: CategoryView| !category.hidden,
                    watched.deep_view() == before + group.categories.deep_view().take(
                        j as int,
                    ).filter(shown),
                decreases group.categories.len() - j,
            {
                let category = &group.categories[j];
                let ghost so_far = watched.deep_view();
                proof {
                    let categories = group.categories.deep_view();
                    assert(categories.take(j + 1).drop_last() =~= categories.take(j as int));
                    assert(categories.take(j + 1).last() == category@);
                    reveal(Seq::filter);
                }
                if !category.hidden {
                    watched.push(category.duplicate());
                    proof {
                        let categories = group.categories.deep_view();
                        assert(watched.deep_view() =~= so_far.push(category@));
                        assert(before + categories.take(j as int).filter(shown).push(category@)
                            =~= (before + categories.take(j as int).filter(shown)).push(
                            category@,
                        ));
                    }
                }
                j += 1;
            }
            assert(group.categories.deep_view().take(group.categories.len() as int)
                =~= group.categories.deep_view());
        }
        i += 1;
    }
    assert(groups.deep_view().take(groups.len() as int) =~= groups.deep_view());
    watched
}

/// The categories to report on: the visible categories of the groups that
/// the watch list names.
pub fn get_categories_to_watch(
    groups: &[CategoryGroup],
    watch_list: &indexmap::IndexMap<String, String>,
) -> (watched: Vec<Category>)
    ensures
        watched.deep_view() == watched_categories(
            groups.deep_view(),
            watch_list_keys(*watch_list),
        ),
{
    let names = watch_list_names(watch_list);
    categories_of_groups(groups, &names)
}

/// The row that a subtransaction with a category gives: the date of its
/// transaction, its own amount, and its own payee or else that of its
/// transaction.
pub open spec fn subtransaction_row(
    date: Date,
    payee_name: Option<Seq<char>>,
    sub: SubTransactionView,
    category_name: Seq<char>,
) -> TransactionRowView {
    TransactionRowView {
        date,
        amount: sub.amount,
        payee_name: if sub.payee_name is Some {
            sub.payee_name
        } else {
            payee_name
        },
        category_name,
    }
}

/// Whether a subtransaction has a category: a category name that is there
/// and is not empty.
pub open spec fn has_category(sub: SubTransactionView) -> bool {
    sub.category_name is Some && sub.category_name->0.len() > 0
}

/// The rows of the subtransactions of one transaction: one for each that has
/// a category, in their order. A subtransaction without a category name, or
/// with an empty one, gives no row.
pub open spec fn subtransaction_rows(
    date: Date,
    payee_name: Option<Seq<char>>,
    subs: Seq<SubTransactionView>,
) -> Seq<TransactionRowView>
    decreases subs.len(),
{
    if subs.len() == 0 {
        Seq::empty()
    } else {
        let before = subtransaction_rows(date, payee_name, subs.drop_last());
        if has_category(subs.last()) {
            before.push(
                subtransaction_row(date, payee_name, subs.last(), subs.last().category_name->0),
            )
        } else {
            before
        }
    }
}

/// The rows of one transaction: those of its subtransactions where it has
/// any; else one row where it has a category name; else none.
pub open spec fn transaction_rows(transaction: TransactionView) -> Seq<TransactionRowView> {
    if transaction.subtransactions.len() > 0 {
        subtransaction_rows(
            transaction.date,
            transaction.payee_name,
            transaction.subtransactions,
        )
    } else {
        match transaction.category_name {
            Some(category_name) => seq![
                TransactionRowView {
                    date: transaction.date,
                    amount: transaction.amount,
                    payee_name: transaction.payee_name,
                    category_name,
                },
            ],
            None => Seq::empty(),
        }
    }
}

/// The rows of all `transactions`, transaction after transaction.
pub open spec fn all_transaction_rows(transactions: Seq<TransactionView>) -> Seq<
    TransactionRowView,
>
    decreases transactions.len(),
{
    if transactions.len() == 0 {
        Seq::empty()
    } else {
        all_transaction_rows(transactions.drop_last()) + transaction_rows(transactions.last())
    }
}

/// The rows that one transaction gives: where it has subtransactions, one
/// for each of them with a category name that is not empty; else one where
/// it has a category name itself; else none.
pub fn expand_transaction(txn: &Transaction) -> (rows: Vec<TransactionRow>)
    ensures
        rows.deep_view() == transaction_rows(txn@),
{
    let mut rows: Vec<TransactionRow> = Vec::new();
    assert(rows.deep_view() =~= Seq::empty());
    if txn.subtransactions.len() > 0 {
        let mut i: usize = 0;
        assert(txn.subtransactions.deep_view().take(0) =~= Seq::empty());
        while i < txn.subtransactions.len()
            invariant
                i <= txn.subtransactions.len(),
                rows.deep_view() == subtransaction_rows(
                    txn.date,
                    txn.payee_name.deep_view(),
                    txn.subtransactions.deep_view().take(i as int),
                ),
            decreases txn.subtransactions.len() - i,
        {
            let sub = &txn.subtransactions[i];
            let ghost before = rows.deep_view();
            proof {
                let subs = txn.subtransactions.deep_view();
                assert(subs.take(i + 1).drop_last() =~= subs.take(i as int));
                assert(subs.take(i + 1).last() == sub@);
            }
            match &sub.category_name {
                Some(category_name) if !category_name.as_str().is_empty() => {
                    let payee_name = match &sub.payee_name {
                        Some(payee) => Some(payee.clone()),
                        None => copy_of_name(&txn.payee_name),
                    };
                    let row = TransactionRow {
                        date: txn.date,
                        amount: sub.amount,
                        payee_name,
                        category_name: category_name.clone(),
                    };
                    assert(row@ == subtransaction_row(
                        txn.date,
                        txn.payee_name.deep_view(),
                        sub@,
                        category_name@,
                    ));
                    rows.push(row);
                    assert(rows.deep_view() =~= before.push(row@));
                },
                _ => {},
            }
            i += 1;
        }
        assert(txn.subtransactions.deep_view().take(txn.subtransactions.len() as int)
            =~= txn.subtransactions.deep_view());
    } else {
        match &txn.category_name {
            Some(category_name) => {
                let row = TransactionRow {
                    date: txn.date,
                    amount: txn.amount,
                    payee_name: copy_of_name(&txn.payee_name),
                    category_name: category_name.clone(),
                };
                rows.push(row);
                assert(rows.deep_view() =~= seq![row@]);
            },
            None => {},
        }
    }
    rows
}

/// The table of the categorized amounts of `transactions`.
pub fn transactions_to_polars(transactions: &[Transaction]) -> (frame: TransactionFrame)
    ensures
        frame@ == all_transaction_rows(transactions.deep_view()),
{
    let mut rows: Vec<TransactionRow> = Vec::new();
    let mut i: usize = 0;
    assert(rows.deep_view() =~= Seq::empty());
    assert(transactions.deep_view().take(0) =~= Seq::empty());
    while i < transactions.len()
        invariant
            i <= transactions.len(),
            rows.deep_view() == all_transaction_rows(transactions.deep_view().take(i as int)),
        decreases transactions.len() - i,
    {
        let ghost before = rows.deep_view();
        let mut expanded = expand_transaction(&transactions[i]);
        let ghost added = expanded.deep_view();
        proof {
            let all = transactions.deep_view();
            assert(all.take(i + 1).drop_last() =~= all.take(i as int));
            assert(all.take(i + 1).last() == transactions[i as int]@);
        }
        rows.append(&mut expanded);
        assert(rows.deep_view() =~= before + added);
        i += 1;
    }
    assert(transactions.deep_view().take(transactions.len() as int) =~= transactions.deep_view());
    TransactionFrame(rows)
}

/// The name of the group of a category that names none.
pub open spec fn uncategorized() -> Seq<char> {
    "Uncategorized"@
}

/// The row of one category: its name and amounts, the name of its group or
/// `Uncategorized`, and the cadence of its goal, which is monthly where the
/// category has a goal target and a goal cadence of 1, and annual otherwise.
pub open spec fn category_row(category: CategoryView) -> CategoryRowView {
    CategoryRowView {
        category_name: category.name,
        category_group_name: match category.category_group_name {
            Some(group_name) => group_name,
            None => uncategorized(),
        },
        budgeted: category.budgeted,
        balance: category.balance,
        goal_cadence: if category.goal_target is Some && category.goal_cadence == Some(1i32) {
            Cadence::Monthly
        } else {
            Cadence::Annual
        },
    }
}

/// The rows of `categories`, in their order.
pub open spec fn category_rows(categories: Seq<CategoryView>) -> Seq<CategoryRowView> {
    Seq::new(categories.len(), |i: int| category_row(categories[i]))
}

/// The table of `categories`.
pub fn categories_to_polars(categories: &[Category]) -> (frame: CategoryFrame)
    ensures
        frame@ == category_rows(categories.deep_view()),
{
    let mut rows: Vec<CategoryRow> = Vec::new();
    let mut i: usize = 0;
    while i < categories.len()
        invariant
            i <= categories.len(),
            rows.len() == i,
            forall|k: int| 0 <= k < i ==> (#[trigger] rows[k])@ == category_row(categories[k]@),
        decreases categories.len() - i,
    {
        let category = &categories[i];
        let category_group_name = match &category.category_group_name {
            Some(group_name) => group_name.clone(),
            None => "Uncategorized".to_owned(),
        };
        let has_monthly_cadence = match category.goal_cadence {
            Some(cadence) => cadence == 1,
            None => false,
        };
        let goal_cadence = if category.goal_target.is_some() && has_monthly_cadence {
            Cadence::Monthly
        } else {
            Cadence::Annual
        };
        rows.push(
            CategoryRow {
                category_name: category.name.clone(),
                category_group_name,
                budgeted: category.budgeted,
                balance: category.balance,
                goal_cadence,
            },
        );
        i += 1;
    }
    assert(rows.deep_view() =~= category_rows(categories.deep_view()));
    CategoryFrame(rows)
}

/// Whether `date` lies between `start` and `end`, both included.
pub open spec fn in_window(date: Date, start: Date, end: Date) -> bool {
    start.on_or_before(date) && date.on_or_before(end)
}

/// The rows whose date lies between `start` and `end`, in their order.
pub open spec fn rows_in_window(rows: Seq<TransactionRowView>, start: Date, end: Date) -> Seq<
    TransactionRowView,
> {
    rows.filter(|row: TransactionRowView| in_window(row.date, start, end))
}

/// The rows of `tf` whose date lies between `start_date` and `end_date`,
/// both included.
pub fn relevant_transactions(tf: TransactionFrame, start_date: Date, end_date: Date) -> (kept:
    TransactionFrame)
    ensures
        kept@ == rows_in_window(tf@, start_date, end_date),
{
    let mut rows: Vec<TransactionRow> = Vec::new();
    let mut i: usize = 0;
    let ghost inside = |row: TransactionRowView| in_window(row.date, start_date, end_date);
    assert(rows.deep_view() =~= Seq::empty());
    assert(tf@.take(0) =~= Seq::empty());
    while i < tf.0.len()
        invariant
            i <= tf.0.len(),
            inside == |row: TransactionRowView| in_window(row.date, start_date, end_date),
            rows.deep_view() == tf@.take(i as int).filter(inside),
        decreases tf.0.len() - i,
    {
        let row = &tf.0[i];
        let ghost before = rows.deep_view();
        proof {
            assert(tf@.take(i + 1).drop_last() =~= tf@.take(i as int));
            assert(tf@.take(i + 1).last() == row@);
            reveal(Seq::filter);
        }
        if start_date.is_on_or_before(&row.date) && row.date.is_on_or_before(&end_date) {
            rows.push(row.duplicate());
            assert(rows.deep_view() =~= before.push(row@));
        }
        i += 1;
    }
    assert(tf@.take(tf.0.len() as int) =~= tf@);
    TransactionFrame(rows)
}

/// One row of the report: a watched category with what was spent in it.
#[derive(Debug, Clone, PartialEq, Eq)]
pub struct ReportRow {
    pub category_group_name: String,
    pub category_name: String,
    pub budgeted: i64,
    pub spent: i64,
    pub balance: i64,
    pub goal_cadence: Cadence,
}

/// What a [`ReportRow`] holds.
pub struct ReportRowView {
    pub category_group_name: Seq<char>,
    pub category_name: Seq<char>,
    pub budgeted: int,
    pub spent: int,
    pub balance: int,
    pub goal_cadence: Cadence,
}

impl DeepView for ReportRow {
    type V = ReportRowView;

    open spec fn deep_view(&self) -> ReportRowView {
        ReportRowView {
            category_group_name: self.category_group_name@,
            category_name: self.category_name@,
            budgeted: self.budgeted as int,
            spent: self.spent as int,
            balance: self.balance as int,
            goal_cadence: self.goal_cadence,
        }
    }
}

impl View for ReportRow {
    type V = ReportRowView;

    open spec fn view(&self) -> ReportRowView {
        self.deep_view()
    }
}

impl ReportRow {
    /// A copy of the row.
    pub fn duplicate(&self) -> (copy: ReportRow)
        ensures
            copy@ == self@,
    {
        ReportRow {
            category_group_name: self.category_group_name.clone(),
            category_name: self.category_name.clone(),
            budgeted: self.budgeted,
            spent: self.spent,
            balance: self.balance,
            goal_cadence: self.goal_cadence,
        }
    }
}

/// Why a report could not be made.
#[derive(Debug, Clone, PartialEq, Eq)]
pub enum ReportError {
    /// What was spent in the category adds up to more than an amount holds.
    SpentOutOfRange { category_name: String },
    /// A total of the group adds up to more than an amount holds.
    TotalOutOfRange { group_name: String },
}

/// What a [`ReportError`] holds.
pub enum ReportErrorView {
    SpentOutOfRange { category_name: Seq<char> },
    TotalOutOfRange { group_name: Seq<char> },
}

impl DeepView for ReportError {
    type V = ReportErrorView;

    open spec fn deep_view(&self) -> ReportErrorView {
        match self {
            ReportError::SpentOutOfRange { category_name } => ReportErrorView::SpentOutOfRange {
                category_name: category_name@,
            },
            ReportError::TotalOutOfRange { group_name } => ReportErrorView::TotalOutOfRange {
                group_name: group_name@,
            },
        }
    }
}

impl View for ReportError {
    type V = ReportErrorView;

    open spec fn view(&self) -> ReportErrorView {
        self.deep_view()
    }
}

/// Whether `amount` is a number that an amount can hold.
pub open spec fn fits_amount(amount: int) -> bool {
    i64::MIN <= amount <= i64::MAX
}

/// The sum of the amounts of the rows of the given category.
pub open spec fn spent_in_category(rows: Seq<TransactionRowView>, category_name: Seq<char>) -> int
    decreases rows.len(),
{
    if rows.len() == 0 {
        0
    } else {
        spent_in_category(rows.drop_last(), category_name) + if rows.last().category_name
            == category_name {
            rows.last().amount as int
        } else {
            0
        }
    }
}

/// What the report shows as spent in a category: the sum of the amounts of
/// its rows where its name is one of `names`, and nothing otherwise.
pub open spec fn spent_of(
    category: CategoryRowView,
    transactions: Seq<TransactionRowView>,
    names: Seq<Seq<char>>,
) -> int {
    if names.contains(category.category_name) {
        spent_in_category(transactions, category.category_name)
    } else {
        0
    }
}

/// The report row of one category.
pub open spec fn report_row(
    category: CategoryRowView,
    transactions: Seq<TransactionRowView>,
    names: Seq<Seq<char>>,
) -> ReportRowView {
    ReportRowView {
        category_group_name: category.category_group_name,
        category_name: category.category_name,
        budgeted: category.budgeted as int,
        spent: spent_of(category, transactions, names),
        balance: category.balance as int,
        goal_cadence: category.goal_cadence,
    }
}

/// The report rows of `categories`, in the order of the categories.
pub open spec fn joined_rows(
    categories: Seq<CategoryRowView>,
    transactions: Seq<TransactionRowView>,
    names: Seq<Seq<char>>,
) -> Seq<ReportRowView> {
    Seq::new(categories.len(), |i: int| report_row(categories[i], transactions, names))
}

/// Whether row `a` comes before row `b` in the report: by the name of the
/// group, and within a group by the name of the category.
pub open spec fn row_precedes(a: ReportRowView, b: ReportRowView) -> bool {
    text_precedes(a.category_group_name, b.category_group_name) || (a.category_group_name
        == b.category_group_name && text_precedes(a.category_name, b.category_name))
}

/// The sorted rows `sorted` with `row` put in: behind every row that does
/// not come after it.
pub open spec fn insert_row(sorted: Seq<ReportRowView>, row: ReportRowView) -> Seq<ReportRowView>
    decreases sorted.len(),
{
    if sorted.len() == 0 {
        seq![row]
    } else if row_precedes(row, sorted.last()) {
        insert_row(sorted.drop_last(), row).push(sorted.last())
    } else {
        sorted.push(row)
    }
}

/// The rows in the order of the report; rows of one group and category name
/// keep the order in which they stand in `rows`.
pub open spec fn sorted_rows(rows: Seq<ReportRowView>) -> Seq<ReportRowView>
    decreases rows.len(),
{
    if rows.len() == 0 {
        Seq::empty()
    } else {
        insert_row(sorted_rows(rows.drop_last()), rows.last())
    }
}

/// Whether no row of `rows` comes before a row that stands before it.
pub open spec fn rows_in_order(rows: Seq<ReportRowView>) -> bool {
    forall|i: int, j: int| 0 <= i < j < rows.len() ==> !row_precedes(rows[j], rows[i])
}

/// The report table: a row for each category, in the order of the report.
pub open spec fn report_table(
    categories: Seq<CategoryRowView>,
    transactions: Seq<TransactionRowView>,
    names: Seq<Seq<char>>,
) -> Seq<ReportRowView> {
    sorted_rows(joined_rows(categories, transactions, names))
}

/// The sum of the amounts of the rows of one category.
fn sum_spent(rows: &Vec<TransactionRow>, category_name: &String) -> (sum: i128)
    ensures
        sum == spent_in_category(rows.deep_view(), category_name@),
{
    let mut sum: i128 = 0;
    let mut i: usize = 0;
    assert(rows.deep_view().take(0) =~= Seq::empty());
    while i < rows.len()
        invariant
            i <= rows.len(),
            sum == spent_in_category(rows.deep_view().take(i as int), category_name@),
            i * i64::MIN <= sum <= i * i64::MAX,
        decreases rows.len() - i,
    {
        proof {
            let all = rows.deep_view();
            assert(all.take(i + 1).drop_last() =~= all.take(i as int));
            assert(all.take(i + 1).last() == rows[i as int]@);
        }
        if rows[i].category_name == *category_name {
            sum = sum + rows[i].amount as i128;
        }
        i += 1;
    }
    assert(rows.deep_view().take(rows.len() as int) =~= rows.deep_view());
    sum
}

/// Whether row `a` comes before row `b` in the report.
fn row_comes_before(a: &ReportRow, b: &ReportRow) -> (before: bool)
    ensures
        before == row_precedes(a@, b@),
{
    if str_precedes(a.category_group_name.as_str(), b.category_group_name.as_str()) {
        true
    } else if a.category_group_name == b.category_group_name {
        str_precedes(a.category_name.as_str(), b.category_name.as_str())
    } else {
        false
    }
}

/// Puts `row` into the sorted `table`, behind every row that does not come
/// after it.
fn insert_sorted(table: &mut Vec<ReportRow>, row: ReportRow)
    ensures
        final(table).deep_view() == insert_row(old(table).deep_view(), row@),
{
    let ghost before = table.deep_view();
    let mut place: usize = table.len();
    while place > 0 && row_comes_before(&row, &table[place - 1])
        invariant
            place <= table.len(),
            table.deep_view() == before,
            forall|k: int| place <= k < table.len() ==> row_precedes(row@, #[trigger] before[k]),
        decreases place,
    {
        place -= 1;
    }
    proof {
        lemma_insert_place(before, row@, place as int);
    }
    table.insert(place, row);
    assert(table.deep_view() =~= before.insert(place as int, row@));
}

/// The report table: for each category of `categories` a row with what was
/// spent in it, sorted by the name of the group and within a group by the
/// name of the category. What was spent in a category is the sum of the
/// amounts of the rows of `transactions` with its name, where its name is one
/// of `category_names`, and nothing otherwise. A sum that no amount can hold
/// is refused, for the first such category.
pub fn build_report_table(
    categories: CategoryFrame,
    transactions: TransactionFrame,
    category_names: &Vec<String>,
) -> (table: Result<Vec<ReportRow>, ReportError>)
    ensures
        match table {
            Ok(rows) => {
                &&& forall|i: int|
                    0 <= i < categories@.len() ==> fits_amount(
                        spent_of(
                            #[trigger] categories@[i],
                            transactions@,
                            category_names.deep_view(),
                        ),
                    )
                &&& rows.deep_view() == report_table(
                    categories@,
                    transactions@,
                    category_names.deep_view(),
                )
                &&& rows.len() == categories@.len()
                &&& rows_in_order(rows.deep_view())
                &&& rows.deep_view().to_multiset() == joined_rows(
                    categories@,
                    transactions@,
                    category_names.deep_view(),
                ).to_multiset()
            },
            Err(error) => exists|i: int|
                {
                    &&& 0 <= i < categories@.len()
                    &&& !fits_amount(
                        spent_of(
                            #[trigger] categories@[i],
                            transactions@,
                            category_names.deep_view(),
                        ),
                    )
                    &&& forall|k: int|
                        0 <= k < i ==> fits_amount(
                            spent_of(
                                #[trigger] categories@[k],
                                transactions@,
                                category_names.deep_view(),
                            ),
                        )
                    &&& error@ == (ReportErrorView::SpentOutOfRange {
                        category_name: categories@[i].category_name,
                    })
                },
        },
{
    let mut table: Vec<ReportRow> = Vec::new();
    let mut i: usize = 0;
    let ghost joined = joined_rows(categories@, transactions@, category_names.deep_view());
    assert(table.deep_view() =~= Seq::empty());
    assert(joined.take(0) =~= Seq::empty());
    while i < categories.0.len()
        invariant
            i <= categories.0.len(),
            joined == joined_rows(categories@, transactions@, category_names.deep_view()),
            table.deep_view() == sorted_rows(joined.take(i as int)),
            forall|k: int|
                0 <= k < i ==> fits_amount(
                    spent_of(#[trigger] categories@[k], transactions@, category_names.deep_view()),
                ),
        decreases categories.0.len() - i,
    {
        let category = &categories.0[i];
        assert(categories@[i as int] == category@);
        let spent: i128 = if contains_name(category_names, &category.category_name) {
            sum_spent(&transactions.0, &category.category_name)
        } else {
            0
        };
        assert(spent == spent_of(category@, transactions@, category_names.deep_view()));
        if spent < i64::MIN as i128 || spent > i64::MAX as i128 {
            return Err(
                ReportError::SpentOutOfRange { category_name: category.category_name.clone() },
            );
        }
        let row = ReportRow {
            category_group_name: category.category_group_name.clone(),
            category_name: category.category_name.clone(),
            budgeted: category.budgeted,
            spent: spent as i64,
            balance: category.balance,
            goal_cadence: category.goal_cadence,
        };
        proof {
            assert(row@ == joined[i as int]);
            assert(joined.take(i + 1).drop_last() =~= joined.take(i as int));
            assert(joined.take(i + 1).last() == joined[i as int]);
        }
        insert_sorted(&mut table, row);
        i += 1;
    }
    proof {
        assert(joined.take(joined.len() as int) =~= joined);
        lemma_sorted_rows(joined);
    }
    Ok(table)
}

/// The totals of one category group, or of the whole report.
#[derive(Debug, Clone, PartialEq, Eq)]
pub struct GroupTotalRow {
    pub category_group_name: String,
    pub budgeted: i64,
    pub spent: i64,
    pub balance: i64,
}

/// What a [`GroupTotalRow`] holds.
pub struct GroupTotalRowView {
    pub category_group_name: Seq<char>,
    pub budgeted: int,
    pub spent: int,
    pub balance: int,
}

impl DeepView for GroupTotalRow {
    type V = GroupTotalRowView;

    open spec fn deep_view(&self) -> GroupTotalRowView {
        GroupTotalRowView {
            category_group_name: self.category_group_name@,
            budgeted: self.budgeted as int,
            spent: self.spent as int,
            balance: self.balance as int,
        }
    }
}

impl View for GroupTotalRow {
    type V = GroupTotalRowView;

    open spec fn view(&self) -> GroupTotalRowView {
        self.deep_view()
    }
}

/// Three sums of amounts: of what was budgeted, spent and left.
pub struct Totals {
    pub budgeted: int,
    pub spent: int,
    pub balance: int,
}

impl Totals {
    /// No amounts.
    pub open spec fn zero() -> Totals {
        Totals { budgeted: 0, spent: 0, balance: 0 }
    }

    /// These sums with the amounts of `row` added.
    pub open spec fn plus(self, row: ReportRowView) -> Totals {
        Totals {
            budgeted: self.budgeted + row.budgeted,
            spent: self.spent + row.spent,
            balance: self.balance + row.balance,
        }
    }

    /// Whether each of the three sums is a number that an amount can hold.
    pub open spec fn fits(self) -> bool {
        fits_amount(self.budgeted) && fits_amount(self.spent) && fits_amount(self.balance)
    }

    /// The totals row with these sums under the given name.
    pub open spec fn row(self, name: Seq<char>) -> GroupTotalRowView {
        GroupTotalRowView {
            category_group_name: name,
            budgeted: self.budgeted,
            spent: self.spent,
            balance: self.balance,
        }
    }
}

/// The sums over the rows of one group.
pub open spec fn totals_of_group(rows: Seq<ReportRowView>, group_name: Seq<char>) -> Totals
    decreases rows.len(),
{
    if rows.len() == 0 {
        Totals::zero()
    } else if rows.last().category_group_name == group_name {
        totals_of_group(rows.drop_last(), group_name).plus(rows.last())
    } else {
        totals_of_group(rows.drop_last(), group_name)
    }
}

/// The sums over all rows.
pub open spec fn totals_of_all(rows: Seq<ReportRowView>) -> Totals
    decreases rows.len(),
{
    if rows.len() == 0 {
        Totals::zero()
    } else {
        totals_of_all(rows.drop_last()).plus(rows.last())
    }
}

/// Whether a row of `rows` belongs to the given group.
pub open spec fn has_row_of_group(rows: Seq<ReportRowView>, group_name: Seq<char>) -> bool {
    exists|k: int| 0 <= k < rows.len() && (#[trigger] rows[k]).category_group_name == group_name
}

/// The name of the row that holds the sums over the whole report.
pub open spec fn total_label() -> Seq<char> {
    "Total"@
}

/// Whether `totals` is the totals table of `table`: a row for each group
/// that has a row in `table`, with the sums over the rows of the group, in
/// ascending order of the group names, and behind them a row named `Total`
/// with the sums over all rows of `table`.
pub open spec fn is_totals_table(totals: Seq<GroupTotalRowView>, table: Seq<ReportRowView>) -> bool {
    let groups = totals.drop_last();
    &&& totals.len() > 0
    &&& totals.last() == totals_of_all(table).row(total_label())
    &&& forall|i: int, j: int|
        0 <= i < j < groups.len() ==> text_precedes(
            (#[trigger] groups[i]).category_group_name,
            (#[trigger] groups[j]).category_group_name,
        )
    &&& forall|i: int|
        0 <= i < groups.len() ==> {
            &&& has_row_of_group(table, (#[trigger] groups[i]).category_group_name)
            &&& groups[i] == totals_of_group(table, groups[i].category_group_name).row(
                groups[i].category_group_name,
            )
        }
    &&& forall|k: int|
        0 <= k < table.len() ==> exists|i: int|
            0 <= i < groups.len() && (#[trigger] groups[i]).category_group_name == (
            #[trigger] table[k]).category_group_name
}

/// Whether no totals table of `table` exists because of the sums of the
/// group `name`: they do not fit, while those of every group before it do;
/// or `name` is `Total`, and the sums of every group fit, but those over
/// the whole table do not.
pub open spec fn totals_out_of_range(table: Seq<ReportRowView>, name: Seq<char>) -> bool {
    ||| {
        &&& has_row_of_group(table, name)
        &&& !totals_of_group(table, name).fits()
        &&& forall|k: int|
            0 <= k < table.len() && text_precedes(
                (#[trigger] table[k]).category_group_name,
                name,
            ) ==> totals_of_group(table, table[k].category_group_name).fits()
    }
    ||| {
        &&& name == total_label()
        &&& !totals_of_all(table).fits()
        &&& forall|k: int|
            0 <= k < table.len() ==> totals_of_group(
                table,
                (#[trigger] table[k]).category_group_name,
            ).fits()
    }
}

/// Whether each name of `names` comes before those behind it.
pub open spec fn names_ascending(names: Seq<Seq<char>>) -> bool {
    forall|i: int, j: int| 0 <= i < j < names.len() ==> text_precedes(names[i], names[j])
}

/// Puts `name` at its place in the ascending list `names`, unless it is
/// there already.
fn insert_name(names: &mut Vec<String>, name: &String)
    requires
        names_ascending(old(names).deep_view()),
    ensures
        names_ascending(final(names).deep_view()),
        forall|other: Seq<char>|
            final(names).deep_view().contains(other) <==> old(names).deep_view().contains(other)
                || other == name@,
{
    let ghost before = names.deep_view();
    let mut place: usize = 0;
    while place < names.len() && str_precedes(names[place].as_str(), name.as_str())
        invariant
            place <= names.len(),
            names.deep_view() == before,
            forall|k: int| 0 <= k < place ==> text_precedes(#[trigger] before[k], name@),
        decreases names.len() - place,
    {
        place += 1;
    }
    if place < names.len() && names[place] == *name {
        assert(before[place as int] == name@);
    } else {
        names.insert(place, name.clone());
        proof {
            let after = names.deep_view();
            assert(after =~= before.insert(place as int, name@));
            assert forall|k: int| 0 <= k < after.len() implies #[trigger] after[k] == (if k
                < place {
                before[k]
            } else if k == place {
                name@
            } else {
                before[k - 1]
            }) by {}
            assert forall|t: int| place <= t < before.len() implies text_precedes(
                name@,
                #[trigger] before[t],
            ) by {
                lemma_text_order_total(before[place as int], name@);
                if t > place {
                    lemma_text_order_transitive(name@, before[place as int], before[t]);
                }
            }
            assert forall|i: int, j: int| 0 <= i < j < after.len() implies text_precedes(
                after[i],
                after[j],
            ) by {
                if j == place {
                } else if i == place {
                    assert(text_precedes(name@, before[j - 1]));
                } else if i < place && place < j {
                    assert(text_precedes(name@, before[j - 1]));
                    lemma_text_order_transitive(before[i], name@, before[j - 1]);
                } else if i < place {
                    assert(text_precedes(before[i], before[j]));
                } else {
                    assert(text_precedes(before[i - 1], before[j - 1]));
                }
            }
            assert forall|other: Seq<char>| after.contains(other) <==> before.contains(other)
                || other == name@ by {
                if after.contains(other) {
                    let k = choose|k: int| 0 <= k < after.len() && after[k] == other;
                    if k < place {
                        assert(before[k] == other);
                    } else if k > place {
                        assert(before[k - 1] == other);
                    }
                }
                if before.contains(other) {
                    let k = choose|k: int| 0 <= k < before.len() && before[k] == other;
                    if k < place {
                        assert(after[k] == other);
                    } else {
                        assert(after[k + 1] == other);
                    }
                }
                if other == name@ {
                    assert(after[place as int] == other);
                }
            }
        }
    }
}

/// The names of the groups of `table`, each once, in ascending order.
fn group_names(table: &Vec<ReportRow>) -> (names: Vec<String>)
    ensures
        names_ascending(names.deep_view()),
        forall|name: Seq<char>|
            names.deep_view().contains(name) <==> has_row_of_group(table.deep_view(), name),
{
    let mut names: Vec<String> = Vec::new();
    let mut i: usize = 0;
    assert(names.deep_view() =~= Seq::empty());
    while i < table.len()
        invariant
            i <= table.len(),
            names_ascending(names.deep_view()),
            forall|name: Seq<char>|
                names.deep_view().contains(name) <==> has_row_of_group(
                    table.deep_view().take(i as int),
                    name,
                ),
        decreases table.len() - i,
    {
        let ghost before = names.deep_view();
        insert_name(&mut names, &table[i].category_group_name);
        proof {
            let rows = table.deep_view();
            let added = table[i as int].category_group_name@;
            assert forall|name: Seq<char>| names.deep_view().contains(name) <==> has_row_of_group(
                rows.take(i + 1),
                name,
            ) by {
                if has_row_of_group(rows.take(i + 1), name) {
                    let k = choose|k: int|
                        0 <= k < rows.take(i + 1).len() && (#[trigger] rows.take(
                            i + 1,
                        )[k]).category_group_name == name;
                    if k < i {
                        assert(rows.take(i as int)[k].category_group_name == name);
                    }
                }
                if before.contains(name) {
                    let k = choose|k: int|
                        0 <= k < rows.take(i as int).len() && (#[trigger] rows.take(
                            i as int,
                        )[k]).category_group_name == name;
                    assert(rows.take(i + 1)[k].category_group_name == name);
                }
                if name == added {
                    assert(rows.take(i + 1)[i as int].category_group_name == name);
                }
            }
        }
        i += 1;
    }
    assert(table.deep_view().take(table.len() as int) =~= table.deep_view());
    names
}

/// The sums over the rows of one group.
fn sum_group(table: &Vec<ReportRow>, group_name: &String) -> (sums: (i128, i128, i128))
    ensures
        totals_of_group(table.deep_view(), group_name@) == (Totals {
            budgeted: sums.0 as int,
            spent: sums.1 as int,
            balance: sums.2 as int,
        }),
{
    let mut budgeted: i128 = 0;
    let mut spent: i128 = 0;
    let mut balance: i128 = 0;
    let mut i: usize = 0;
    assert(table.deep_view().take(0) =~= Seq::empty());
    while i < table.len()
        invariant
            i <= table.len(),
            totals_of_group(table.deep_view().take(i as int), group_name@) == (Totals {
                budgeted: budgeted as int,
                spent: spent as int,
                balance: balance as int,
            }),
            i * i64::MIN <= budgeted <= i * i64::MAX,
            i * i64::MIN <= spent <= i * i64::MAX,
            i * i64::MIN <= balance <= i * i64::MAX,
        decreases table.len() - i,
    {
        proof {
            let rows = table.deep_view();
            assert(rows.take(i + 1).drop_last() =~= rows.take(i as int));
            assert(rows.take(i + 1).last() == table[i as int]@);
        }
        if table[i].category_group_name == *group_name {
            budgeted = budgeted + table[i].budgeted as i128;
            spent = spent + table[i].spent as i128;
            balance = balance + table[i].balance as i128;
        }
        i += 1;
    }
    assert(table.deep_view().take(table.len() as int) =~= table.deep_view());
    (budgeted, spent, balance)
}

/// The sums over all rows.
fn sum_all(table: &Vec<ReportRow>) -> (sums: (i128, i128, i128))
    ensures
        totals_of_all(table.deep_view()) == (Totals {
            budgeted: sums.0 as int,
            spent: sums.1 as int,
            balance: sums.2 as int,
        }),
{
    let mut budgeted: i128 = 0;
    let mut spent: i128 = 0;
    let mut balance: i128 = 0;
    let mut i: usize = 0;
    assert(table.deep_view().take(0) =~= Seq::empty());
    while i < table.len()
        invariant
            i <= table.len(),
            totals_of_all(table.deep_view().take(i as int)) == (Totals {
                budgeted: budgeted as int,
                spent: spent as int,
                balance: balance as int,
            }),
            i * i64::MIN <= budgeted <= i * i64::MAX,
            i * i64::MIN <= spent <= i * i64::MAX,
            i * i64::MIN <= balance <= i * i64::MAX,
        decreases table.len() - i,
    {
        proof {
            let rows = table.deep_view();
            assert(rows.take(i + 1).drop_last() =~= rows.take(i as int));
            assert(rows.take(i + 1).last() == table[i as int]@);
        }
        budgeted = budgeted + table[i].budgeted as i128;
        spent = spent + table[i].spent as i128;
        balance = balance + table[i].balance as i128;
        i += 1;
    }
    assert(table.deep_view().take(table.len() as int) =~= table.deep_view());
    (budgeted, spent, balance)
}

/// Whether `amount` is a number that an amount can hold.
fn amount_fits(amount: i128) -> (fits: bool)
    ensures
        fits == fits_amount(amount as int),
{
    i64::MIN as i128 <= amount && amount <= i64::MAX as i128
}

/// The totals table of a report table: for each group of the table a row with
/// the sums over the rows of the group, in ascending order of the group
/// names, and behind them the row `Total` with the sums over all rows. Sums
/// that no amount can hold are refused, with the name of the first row of
/// the totals table that they would stand in.
pub fn build_category_group_totals_table(report_table: Vec<ReportRow>) -> (totals: Result<
    Vec<GroupTotalRow>,
    ReportError,
>)
    ensures
        match totals {
            Ok(rows) => is_totals_table(rows.deep_view(), report_table.deep_view()),
            Err(error) => exists|name: Seq<char>|
                {
                    &&& error@ == (ReportErrorView::TotalOutOfRange { group_name: name })
                    &&& #[trigger] totals_out_of_range(report_table.deep_view(), name)
                },
        },
{
    let ghost table = report_table.deep_view();
    let names = group_names(&report_table);
    let mut rows: Vec<GroupTotalRow> = Vec::new();
    let mut i: usize = 0;
    assert(rows.deep_view() =~= Seq::empty());
    while i < names.len()
        invariant
            i <= names.len(),
            table == report_table.deep_view(),
            names_ascending(names.deep_view()),
            forall|name: Seq<char>| names.deep_view().contains(name) <==> has_row_of_group(table, name),
            rows.len() == i,
            forall|k: int|
                0 <= k < i ==> (#[trigger] rows.deep_view()[k]) == totals_of_group(
                    table,
                    names[k]@,
                ).row(names[k]@),
        decreases names.len() - i,
    {
        let name = &names[i];
        let (budgeted, spent, balance) = sum_group(&report_table, name);
        assert(names.deep_view()[i as int] == name@);
        assert(names.deep_view().contains(name@));
        if !(amount_fits(budgeted) && amount_fits(spent) && amount_fits(balance)) {
            proof {
                assert forall|k: int|
                    0 <= k < table.len() && text_precedes(
                        (#[trigger] table[k]).category_group_name,
                        name@,
                    ) implies totals_of_group(table, table[k].category_group_name).fits() by {
                    let other = table[k].category_group_name;
                    assert(has_row_of_group(table, other));
                    assert(names.deep_view().contains(other));
                    let u = choose|u: int|
                        0 <= u < names.deep_view().len() && names.deep_view()[u] == other;
                    if u == i {
                        lemma_text_order_irreflexive(other);
                    } else if u > i {
                        assert(text_precedes(names.deep_view()[i as int], names.deep_view()[u]));
                        lemma_text_order_transitive(other, name@, other);
                        lemma_text_order_irreflexive(other);
                    } else {
                        assert(rows.deep_view()[u] == totals_of_group(table, names[u]@).row(
                            names[u]@,
                        ));
                    }
                }
                assert(totals_out_of_range(table, name@));
            }
            return Err(ReportError::TotalOutOfRange { group_name: name.clone() });
        }
        let ghost before = rows.deep_view();
        rows.push(
            GroupTotalRow {
                category_group_name: name.clone(),
                budgeted: budgeted as i64,
                spent: spent as i64,
                balance: balance as i64,
            },
        );
        proof {
            assert forall|k: int| 0 <= k < i + 1 implies (#[trigger] rows.deep_view()[k])
                == totals_of_group(table, names[k]@).row(names[k]@) by {
                if k < i {
                    assert(rows.deep_view()[k] == before[k]);
                }
            }
        }
        i += 1;
    }
    let (budgeted, spent, balance) = sum_all(&report_table);
    proof {
        assert forall|k: int| 0 <= k < table.len() implies totals_of_group(
            table,
            (#[trigger] table[k]).category_group_name,
        ).fits() by {
            let other = table[k].category_group_name;
            assert(has_row_of_group(table, other));
            let u = choose|u: int|
                0 <= u < names.deep_view().len() && names.deep_view()[u] == other;
            assert(rows.deep_view()[u] == totals_of_group(table, names[u]@).row(names[u]@));
        }
    }
    if !(amount_fits(budgeted) && amount_fits(spent) && amount_fits(balance)) {
        let label = "Total".to_owned();
        assert(totals_out_of_range(table, label@));
        return Err(ReportError::TotalOutOfRange { group_name: label });
    }
    let ghost groups = rows.deep_view();
    rows.push(
        GroupTotalRow {
            category_group_name: "Total".to_owned(),
            budgeted: budgeted as i64,
            spent: spent as i64,
            balance: balance as i64,
        },
    );
    proof {
        let totals = rows.deep_view();
        assert(totals.drop_last() =~= groups);
        assert forall|k: int| 0 <= k < groups.len() implies #[trigger] groups[k].category_group_name
            == names.deep_view()[k] by {}
        assert forall|k: int| 0 <= k < table.len() implies exists|u: int|
            0 <= u < groups.len() && (#[trigger] groups[u]).category_group_name == (
            #[trigger] table[k]).category_group_name by {
            let other = table[k].category_group_name;
            assert(has_row_of_group(table, other));
            let u = choose|u: int|
                0 <= u < names.deep_view().len() && names.deep_view()[u] == other;
            assert(groups[u].category_group_name == other);
        }
        assert forall|u: int| 0 <= u < groups.len() implies {
            &&& has_row_of_group(table, (#[trigger] groups[u]).category_group_name)
            &&& groups[u] == totals_of_group(table, groups[u].category_group_name).row(
                groups[u].category_group_name,
            )
        } by {
            assert(names.deep_view().contains(names.deep_view()[u]));
        }
    }
    Ok(rows)
}

/// The rows in which something was spent, in their order.
pub open spec fn spending_rows(table: Seq<ReportRowView>) -> Seq<ReportRowView> {
    table.filter(|row: ReportRowView| row.spent != 0)
}

/// The rows of `table` in which something was spent, in their order: the
/// rows that a report shows when it leaves out the categories without
/// activity.
pub fn rows_with_spending(table: &Vec<ReportRow>) -> (shown: Vec<ReportRow>)
    ensures
        shown.deep_view() == spending_rows(table.deep_view()),
{
    let mut shown: Vec<ReportRow> = Vec::new();
    let mut i: usize = 0;
    let ghost active = |row: ReportRowView| row.spent != 0;
    assert(shown.deep_view() =~= Seq::empty());
    assert(table.deep_view().take(0) =~= Seq::empty());
    while i < table.len()
        invariant
            i <= table.len(),
            active == |row: ReportRowView| row.spent != 0,
            shown.deep_view() == table.deep_view().take(i as int).filter(active),
        decreases table.len() - i,
    {
        let ghost before = shown.deep_view();
        proof {
            let rows = table.deep_view();
            assert(rows.take(i + 1).drop_last() =~= rows.take(i as int));
            assert(rows.take(i + 1).last() == table[i as int]@);
            reveal(Seq::filter);
        }
        if table[i].spent != 0 {
            shown.push(table[i].duplicate());
            assert(shown.deep_view() =~= before.push(table[i as int]@));
        }
        i += 1;
    }
    assert(table.deep_view().take(table.len() as int) =~= table.deep_view());
    shown
}

} // verus!
