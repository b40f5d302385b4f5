//! The ledger records that a report is made from: budgets, category groups
//! with their categories, and transactions with their subtransactions.
//!
//! Amounts are whole numbers of thousandths of the currency unit. Each
//! record has a view in which its texts are sequences of characters; the
//! contracts of the report speak of these views.

use crate::date::Date;
use vstd::prelude::*;

verus! {

/// A budget, by identifier and name.
#[derive(Debug, Clone, PartialEq, Eq)]
pub struct BudgetSummary {
    pub id: String,
    pub name: String,
}

/// What a [`BudgetSummary`] holds.
pub struct BudgetSummaryView {
    pub id: Seq<char>,
    pub name: Seq<char>,
}

impl DeepView for BudgetSummary {
    type V = BudgetSummaryView;

    open spec fn deep_view(&self) -> BudgetSummaryView {
        BudgetSummaryView { id: self.id@, name: self.name@ }
    }
}

impl View for BudgetSummary {
    type V = BudgetSummaryView;

    open spec fn view(&self) -> BudgetSummaryView {
        self.deep_view()
    }
}

/// A budget category with what was assigned to it and what is left of it.
#[derive(Debug, Clone, PartialEq, Eq)]
pub struct Category {
    pub id: String,
    pub name: String,
    pub category_group_name: Option<String>,
    pub budgeted: i64,
    pub balance: i64,
    pub goal_cadence: Option<i32>,
    pub goal_target: Option<i64>,
    pub hidden: bool,
}

/// What a [`Category`] holds.
pub struct CategoryView {
    pub id: Seq<char>,
    pub name: Seq<char>,
    pub category_group_name: Option<Seq<char>>,
    pub budgeted: i64,
    pub balance: i64,
    pub goal_cadence: Option<i32>,
    pub goal_target: Option<i64>,
    pub hidden: bool,
}

impl DeepView for Category {
    type V = CategoryView;

    open spec fn deep_view(&self) -> CategoryView {
        CategoryView {
            id: self.id@,
            name: self.name@,
            category_group_name: self.category_group_name.deep_view(),
            budgeted: self.budgeted,
            balance: self.balance,
            goal_cadence: self.goal_cadence,
            goal_target: self.goal_target,
            hidden: self.hidden,
        }
    }
}

impl View for Category {
    type V = CategoryView;

    open spec fn view(&self) -> CategoryView {
        self.deep_view()
    }
}

impl Category {
    /// A copy of the category.
    pub fn duplicate(&self) -> (copy: Category)
        ensures
            copy@ == self@,
    {
        Category {
            id: self.id.clone(),
            name: self.name.clone(),
            category_group_name: copy_of_name(&self.category_group_name),
            budgeted: self.budgeted,
            balance: self.balance,
            goal_cadence: self.goal_cadence,
            goal_target: self.goal_target,
            hidden: self.hidden,
        }
    }
}

/// A group of categories.
#[derive(Debug, Clone, PartialEq, Eq)]
pub struct CategoryGroup {
    pub id: String,
    pub name: String,
    pub hidden: bool,
    pub deleted: bool,
    pub categories: Vec<Category>,
}

/// What a [`CategoryGroup`] holds.
pub struct CategoryGroupView {
    pub id: Seq<char>,
    pub name: Seq<char>,
    pub hidden: bool,
    pub deleted: bool,
    pub categories: Seq<CategoryView>,
}

impl DeepView for CategoryGroup {
    type V = CategoryGroupView;

    open spec fn deep_view(&self) -> CategoryGroupView {
        CategoryGroupView {
            id: self.id@,
            name: self.name@,
            hidden: self.hidden,
            deleted: self.deleted,
            categories: self.categories.deep_view(),
        }
    }
}

impl View for CategoryGroup {
    type V = CategoryGroupView;

    open spec fn view(&self) -> CategoryGroupView {
        self.deep_view()
    }
}

/// One part of a split transaction.
#[derive(Debug, Clone, PartialEq, Eq)]
pub struct SubTransaction {
    pub amount: i64,
    pub payee_name: Option<String>,
    pub category_name: Option<String>,
}

/// What a [`SubTransaction`] holds.
pub struct SubTransactionView {
    pub amount: i64,
    pub payee_name: Option<Seq<char>>,
    pub category_name: Option<Seq<char>>,
}

impl DeepView for SubTransaction {
    type V = SubTransactionView;

    open spec fn deep_view(&self) -> SubTransactionView {
        SubTransactionView {
            amount: self.amount,
            payee_name: self.payee_name.deep_view(),
            category_name: self.category_name.deep_view(),
        }
    }
}

impl View for SubTransaction {
    type V = SubTransactionView;

    open spec fn view(&self) -> SubTransactionView {
        self.deep_view()
    }
}

/// A transaction, split into subtransactions or not.
#[derive(Debug, Clone, PartialEq, Eq)]
pub struct Transaction {
    pub id: String,
    pub date: Date,
    pub amount: i64,
    pub payee_name: Option<String>,
    pub category_name: Option<String>,
    pub subtransactions: Vec<SubTransaction>,
}

/// What a [`Transaction`] holds.
pub struct TransactionView {
    pub id: Seq<char>,
    pub date: Date,
    pub amount: i64,
    pub payee_name: Option<Seq<char>>,
    pub category_name: Option<Seq<char>>,
    pub subtransactions: Seq<SubTransactionView>,
}

impl DeepView for Transaction {
    type V = TransactionView;

    open spec fn deep_view(&self) -> TransactionView {
        TransactionView {
            id: self.id@,
            date: self.date,
            amount: self.amount,
            payee_name: self.payee_name.deep_view(),
            category_name: self.category_name.deep_view(),
            subtransactions: self.subtransactions.deep_view(),
        }
    }
}

impl View for Transaction {
    type V = TransactionView;

    open spec fn view(&self) -> TransactionView {
        self.deep_view()
    }
}

/// A copy of a name that may be absent.
pub fn copy_of_name(name: &Option<String>) -> (copy: Option<String>)
    ensures
        copy.deep_view() == name.deep_view(),
{
    match name {
        Some(text) => Some(text.clone()),
        None => None,
    }
}

/// The ledger as a report reads it. Each method asks the budgeting service
/// and says why on failure; nothing is known of what it hands out.
pub trait YnabApi {
    /// Why the service could not be read.
    type Error;

    /// The budgets of the account.
    fn get_budgets(&self) -> Result<Vec<BudgetSummary>, Self::Error>;

    /// The category groups of a budget, each with its categories.
    fn get_category_groups(&self, budget_id: &str) -> Result<Vec<CategoryGroup>, Self::Error>;

    /// A category as it stands in the month of `month`, which is a day that
    /// exists.
    fn get_month_category(&self, budget_id: &str, month: Date, category_id: &str) -> Result<
        Category,
        Self::Error,
    >
        requires
            month.wf(),
    ;

    /// The transactions of a budget since `since_date`, which is a day that
    /// exists.
    fn get_transactions(&self, budget_id: &str, since_date: Date) -> Result<
        Vec<Transaction>,
        Self::Error,
    >
        requires
            since_date.wf(),
    ;
}

} // verus!
