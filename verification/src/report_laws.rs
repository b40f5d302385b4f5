//! What holds of every report: the order of its rows, what each row shows
//! as spent, the rows that a transaction gives, and the sums of its totals.

use crate::date::Date;
use crate::report::{
    all_transaction_rows, category_rows, has_category, in_window, insert_row, is_totals_table,
    joined_rows,
    report_row, report_table, row_precedes, rows_in_order, rows_in_window, sorted_rows,
    spent_in_category, subtransaction_row, subtransaction_rows, total_label, totals_of_all,
    totals_of_group, transaction_rows, GroupTotalRowView, ReportRowView, Totals,
    TransactionRowView,
};
use crate::sequences::lemma_filter_members;
use crate::text::{
    lemma_text_order_irreflexive, lemma_text_order_total, lemma_text_order_transitive,
    text_precedes,
};
use crate::ynab::{CategoryView, SubTransactionView, TransactionView};
use vstd::prelude::*;
use vstd::seq_lib::{to_multiset_build, to_multiset_contains};

verus! {

/// A row put in behind the last row that does not come after it stands
/// where `insert_row` puts it.
pub(crate) proof fn lemma_insert_place(sorted: Seq<ReportRowView>, row: ReportRowView, place: int)
    requires
        0 <= place <= sorted.len(),
        forall|k: int| place <= k < sorted.len() ==> row_precedes(row, #[trigger] sorted[k]),
        place > 0 ==> !row_precedes(row, sorted[place - 1]),
    ensures
        insert_row(sorted, row) == sorted.insert(place, row),
    decreases sorted.len(),
{
    if sorted.len() == 0 {
        assert(sorted.insert(place, row) =~= seq![row]);
    } else if place == sorted.len() {
        assert(sorted.insert(place, row) =~= sorted.push(row));
    } else {
        assert(row_precedes(row, sorted[sorted.len() - 1]));
        lemma_insert_place(sorted.drop_last(), row, place);
        assert(sorted.insert(place, row) =~= sorted.drop_last().insert(place, row).push(
            sorted.last(),
        ));
    }
}

/// Two rows of one group and category name: neither comes before the other.
pub open spec fn same_place(a: ReportRowView, b: ReportRowView) -> bool {
    a.category_group_name == b.category_group_name && a.category_name == b.category_name
}

/// Of two rows one comes before the other, unless they have the group and
/// the category name in common; never both come before each other.
pub proof fn lemma_row_order(a: ReportRowView, b: ReportRowView)
    ensures
        row_precedes(a, b) || row_precedes(b, a) || same_place(a, b),
        !(row_precedes(a, b) && row_precedes(b, a)),
        same_place(a, b) ==> !row_precedes(a, b),
{
    if a.category_group_name != b.category_group_name {
        lemma_text_order_total(a.category_group_name, b.category_group_name);
    }
    if a.category_name != b.category_name {
        lemma_text_order_total(a.category_name, b.category_name);
    }
    lemma_text_order_irreflexive(a.category_group_name);
    lemma_text_order_irreflexive(a.category_name);
    if text_precedes(a.category_group_name, b.category_group_name) && text_precedes(
        b.category_group_name,
        a.category_group_name,
    ) {
        lemma_text_order_transitive(
            a.category_group_name,
            b.category_group_name,
            a.category_group_name,
        );
    }
    if text_precedes(a.category_name, b.category_name) && text_precedes(
        b.category_name,
        a.category_name,
    ) {
        lemma_text_order_transitive(a.category_name, b.category_name, a.category_name);
    }
}

/// What comes before a row comes before all rows that the row comes before.
pub proof fn lemma_row_order_transitive(a: ReportRowView, b: ReportRowView, c: ReportRowView)
    requires
        row_precedes(a, b),
        row_precedes(b, c),
    ensures
        row_precedes(a, c),
{
    if text_precedes(a.category_group_name, b.category_group_name) && text_precedes(
        b.category_group_name,
        c.category_group_name,
    ) {
        lemma_text_order_transitive(
            a.category_group_name,
            b.category_group_name,
            c.category_group_name,
        );
    }
    if text_precedes(a.category_name, b.category_name) && text_precedes(
        b.category_name,
        c.category_name,
    ) {
        lemma_text_order_transitive(a.category_name, b.category_name, c.category_name);
    }
}

/// A row that does not come after a second, which does not come after a
/// third, does not come after the third.
proof fn lemma_not_after_transitive(a: ReportRowView, b: ReportRowView, c: ReportRowView)
    requires
        !row_precedes(b, a),
        !row_precedes(c, b),
    ensures
        !row_precedes(c, a),
{
    lemma_row_order(a, b);
    if row_precedes(c, a) {
        if row_precedes(a, b) {
            lemma_row_order_transitive(c, a, b);
        }
    }
}

/// A row put into sorted rows: the rows stay sorted, and hold what they held
/// and the row.
proof fn lemma_insert_row(sorted: Seq<ReportRowView>, row: ReportRowView)
    ensures
        insert_row(sorted, row).to_multiset() == sorted.to_multiset().insert(row),
        insert_row(sorted, row).len() == sorted.len() + 1,
        rows_in_order(sorted) ==> rows_in_order(insert_row(sorted, row)),
    decreases sorted.len(),
{
    let result = insert_row(sorted, row);
    if sorted.len() == 0 {
        assert(seq![row] =~= sorted.push(row));
        to_multiset_build(sorted, row);
    } else if row_precedes(row, sorted.last()) {
        let front = sorted.drop_last();
        let inner = insert_row(front, row);
        lemma_insert_row(front, row);
        to_multiset_build(inner, sorted.last());
        to_multiset_build(front, sorted.last());
        assert(front.push(sorted.last()) =~= sorted);
        assert(result.to_multiset() =~= sorted.to_multiset().insert(row));
        if rows_in_order(sorted) {
            assert forall|i: int, j: int| 0 <= i < j < front.len() implies !row_precedes(
                front[j],
                front[i],
            ) by {
                assert(!row_precedes(sorted[j], sorted[i]));
            }
            assert forall|i: int, j: int| 0 <= i < j < result.len() implies !row_precedes(
                result[j],
                result[i],
            ) by {
                if j < inner.len() {
                    assert(!row_precedes(inner[j], inner[i]));
                } else {
                    to_multiset_contains(inner, inner[i]);
                    to_multiset_contains(front, inner[i]);
                    assert(inner.contains(inner[i]));
                    if inner[i] == row {
                        lemma_row_order(row, sorted.last());
                    } else {
                        assert(front.contains(inner[i]));
                        let k = choose|k: int| 0 <= k < front.len() && front[k] == inner[i];
                        assert(!row_precedes(sorted[sorted.len() - 1], sorted[k]));
                    }
                }
            }
        }
    } else {
        to_multiset_build(sorted, row);
        if rows_in_order(sorted) {
            assert forall|i: int, j: int| 0 <= i < j < result.len() implies !row_precedes(
                result[j],
                result[i],
            ) by {
                if j < sorted.len() {
                    assert(!row_precedes(sorted[j], sorted[i]));
                } else if i < sorted.len() - 1 {
                    assert(!row_precedes(sorted[sorted.len() - 1], sorted[i]));
                    lemma_not_after_transitive(sorted[i], sorted.last(), row);
                }
            }
        }
    }
}

/// The sorted rows are the given rows in another order: each row as often
/// as it is given, and no row before a row that comes before it.
pub proof fn lemma_sorted_rows(rows: Seq<ReportRowView>)
    ensures
        sorted_rows(rows).to_multiset() == rows.to_multiset(),
        sorted_rows(rows).len() == rows.len(),
        rows_in_order(sorted_rows(rows)),
        forall|row: ReportRowView| sorted_rows(rows).contains(row) <==> rows.contains(row),
    decreases rows.len(),
{
    if rows.len() == 0 {
        assert(rows =~= Seq::empty());
    } else {
        lemma_sorted_rows(rows.drop_last());
        lemma_insert_row(sorted_rows(rows.drop_last()), rows.last());
        to_multiset_build(rows.drop_last(), rows.last());
        assert(rows.drop_last().push(rows.last()) =~= rows);
    }
    assert forall|row: ReportRowView| sorted_rows(rows).contains(row) <==> rows.contains(row) by {
        to_multiset_contains(sorted_rows(rows), row);
        to_multiset_contains(rows, row);
    }
}

/// The sum of the amounts of the rows of the given category whose date lies
/// between `start` and `end`.
pub open spec fn spent_in_window(
    rows: Seq<TransactionRowView>,
    category_name: Seq<char>,
    start: Date,
    end: Date,
) -> int
    decreases rows.len(),
{
    if rows.len() == 0 {
        0
    } else {
        spent_in_window(rows.drop_last(), category_name, start, end) + if rows.last().category_name
            == category_name && in_window(rows.last().date, start, end) {
            rows.last().amount as int
        } else {
            0
        }
    }
}

/// What the rows of a window show as spent in a category is what was spent
/// in it within the window.
proof fn lemma_spent_of_window_rows(
    rows: Seq<TransactionRowView>,
    category_name: Seq<char>,
    start: Date,
    end: Date,
)
    ensures
        spent_in_category(rows_in_window(rows, start, end), category_name) == spent_in_window(
            rows,
            category_name,
            start,
            end,
        ),
    decreases rows.len(),
{
    reveal(Seq::filter);
    if rows.len() > 0 {
        lemma_spent_of_window_rows(rows.drop_last(), category_name, start, end);
        let inside = |row: TransactionRowView| in_window(row.date, start, end);
        if inside(rows.last()) {
            assert(rows.filter(inside).drop_last() =~= rows.drop_last().filter(inside));
        }
    }
}

/// Where no row within the window names a category, nothing was spent in it
/// within the window.
pub proof fn lemma_nothing_spent(
    rows: Seq<TransactionRowView>,
    category_name: Seq<char>,
    start: Date,
    end: Date,
)
    requires
        forall|k: int|
            0 <= k < rows.len() && (#[trigger] rows[k]).category_name == category_name
                ==> !in_window(rows[k].date, start, end),
    ensures
        spent_in_window(rows, category_name, start, end) == 0,
    decreases rows.len(),
{
    if rows.len() > 0 {
        assert(rows.last() == rows[rows.len() - 1]);
        assert forall|k: int|
            0 <= k < rows.drop_last().len() && (#[trigger] rows.drop_last()[k]).category_name
                == category_name implies !in_window(rows.drop_last()[k].date, start, end) by {
            assert(rows.drop_last()[k] == rows[k]);
        }
        lemma_nothing_spent(rows.drop_last(), category_name, start, end);
    }
}

/// The report of a week has one row for each category. What a row shows as
/// spent is the sum of the amounts of those rows of the transactions that
/// name its category and whose date lies in the week, where the category is
/// one of `names`, and nothing otherwise.
pub proof fn lemma_report_spent(
    categories: Seq<CategoryView>,
    transactions: Seq<TransactionView>,
    names: Seq<Seq<char>>,
    start: Date,
    end: Date,
    i: int,
)
    requires
        0 <= i < categories.len(),
    ensures
        ({
            let report = report_table(
                category_rows(categories),
                rows_in_window(all_transaction_rows(transactions), start, end),
                names,
            );
            &&& report.len() == categories.len()
            &&& report[i].spent == if names.contains(report[i].category_name) {
                spent_in_window(
                    all_transaction_rows(transactions),
                    report[i].category_name,
                    start,
                    end,
                )
            } else {
                0
            }
        }),
{
    let rows = rows_in_window(all_transaction_rows(transactions), start, end);
    let joined = joined_rows(category_rows(categories), rows, names);
    let report = sorted_rows(joined);
    lemma_sorted_rows(joined);
    assert(joined.len() == categories.len());
    assert(report.contains(report[i]));
    assert(joined.contains(report[i]));
    let k = choose|k: int| 0 <= k < joined.len() && joined[k] == report[i];
    assert(report[i] == report_row(category_rows(categories)[k], rows, names));
    lemma_spent_of_window_rows(
        all_transaction_rows(transactions),
        report[i].category_name,
        start,
        end,
    );
}

/// The subtransactions that have a category, in their order: those with a
/// category name that is not empty.
pub open spec fn categorized(subs: Seq<SubTransactionView>) -> Seq<SubTransactionView> {
    subs.filter(|sub: SubTransactionView| has_category(sub))
}

/// The rows of subtransactions are the rows of those that have a category.
proof fn lemma_subtransaction_rows(
    date: Date,
    payee_name: Option<Seq<char>>,
    subs: Seq<SubTransactionView>,
)
    ensures
        subtransaction_rows(date, payee_name, subs) == Seq::new(
            categorized(subs).len(),
            |k: int|
                subtransaction_row(
                    date,
                    payee_name,
                    categorized(subs)[k],
                    categorized(subs)[k].category_name->0,
                ),
        ),
    decreases subs.len(),
{
    reveal(Seq::filter);
    if subs.len() > 0 {
        lemma_subtransaction_rows(date, payee_name, subs.drop_last());
        let front = categorized(subs.drop_last());
        if has_category(subs.last()) {
            assert(categorized(subs) =~= front.push(subs.last()));
        } else {
            assert(categorized(subs) =~= front);
        }
    }
    assert(subtransaction_rows(date, payee_name, subs) =~= Seq::new(
        categorized(subs).len(),
        |k: int|
            subtransaction_row(
                date,
                payee_name,
                categorized(subs)[k],
                categorized(subs)[k].category_name->0,
            ),
    ));
}

/// A transaction with subtransactions gives one row for each subtransaction
/// that has a category name that is not empty, in their order, and none for
/// the others. A transaction without subtransactions gives one row where it
/// has a category name, and none where it has not.
pub proof fn lemma_transaction_rows(transaction: TransactionView)
    ensures
        transaction.subtransactions.len() > 0 ==> {
            &&& transaction_rows(transaction).len() == categorized(
                transaction.subtransactions,
            ).len()
            &&& forall|k: int|
                0 <= k < categorized(transaction.subtransactions).len() ==> {
                    &&& has_category(#[trigger] categorized(transaction.subtransactions)[k])
                    &&& transaction.subtransactions.contains(
                        categorized(transaction.subtransactions)[k],
                    )
                    &&& transaction_rows(transaction)[k] == subtransaction_row(
                        transaction.date,
                        transaction.payee_name,
                        categorized(transaction.subtransactions)[k],
                        categorized(transaction.subtransactions)[k].category_name->0,
                    )
                }
        },
        (forall|i: int|
            0 <= i < transaction.subtransactions.len() ==> !has_category(
                #[trigger] transaction.subtransactions[i],
            )) ==> transaction.subtransactions.len() > 0 ==> transaction_rows(transaction).len()
            == 0,
        transaction.subtransactions.len() == 0 && transaction.category_name is Some
            ==> transaction_rows(transaction).len() == 1,
        transaction.subtransactions.len() == 0 && transaction.category_name is None
            ==> transaction_rows(transaction).len() == 0,
{
    let subs = transaction.subtransactions;
    lemma_subtransaction_rows(transaction.date, transaction.payee_name, subs);
    assert forall|k: int| 0 <= k < categorized(subs).len() implies has_category(
        #[trigger] categorized(subs)[k],
    ) && subs.contains(categorized(subs)[k]) by {
        lemma_filter_members(subs, |sub: SubTransactionView| has_category(sub), k);
    }
    if categorized(subs).len() > 0 {
        let sub = categorized(subs)[0];
        let i = choose|i: int| 0 <= i < subs.len() && subs[i] == sub;
        assert(has_category(subs[i]));
    }
}

/// The sums of the totals rows.
pub open spec fn sum_of_totals(totals: Seq<GroupTotalRowView>) -> Totals
    decreases totals.len(),
{
    if totals.len() == 0 {
        Totals::zero()
    } else {
        let before = sum_of_totals(totals.drop_last());
        Totals {
            budgeted: before.budgeted + totals.last().budgeted,
            spent: before.spent + totals.last().spent,
            balance: before.balance + totals.last().balance,
        }
    }
}

/// One more row in the table adds its amounts to the sum of the group
/// totals once, if its group is among the groups, and not at all otherwise.
proof fn lemma_group_sums_of_one_more_row(
    groups: Seq<GroupTotalRowView>,
    longer: Seq<GroupTotalRowView>,
    table: Seq<ReportRowView>,
    row: ReportRowView,
)
    requires
        groups.len() == longer.len(),
        forall|i: int, j: int|
            0 <= i < j < groups.len() ==> (#[trigger] groups[i]).category_group_name != (
            #[trigger] groups[j]).category_group_name,
        forall|i: int|
            0 <= i < groups.len() ==> (#[trigger] groups[i]) == totals_of_group(
                table,
                groups[i].category_group_name,
            ).row(groups[i].category_group_name),
        forall|i: int|
            0 <= i < groups.len() ==> (#[trigger] longer[i]) == totals_of_group(
                table.push(row),
                groups[i].category_group_name,
            ).row(groups[i].category_group_name),
    ensures
        sum_of_totals(longer) == if exists|i: int|
            0 <= i < groups.len() && (#[trigger] groups[i]).category_group_name
                == row.category_group_name {
            sum_of_totals(groups).plus(row)
        } else {
            sum_of_totals(groups)
        },
    decreases groups.len(),
{
    if groups.len() > 0 {
        let front = groups.drop_last();
        let longer_front = longer.drop_last();
        let last = groups.len() - 1;
        assert(table.push(row).drop_last() =~= table);
        assert forall|i: int| 0 <= i < front.len() implies (#[trigger] front[i]) == totals_of_group(
            table,
            front[i].category_group_name,
        ).row(front[i].category_group_name) by {
            assert(front[i] == groups[i]);
        }
        assert forall|i: int| 0 <= i < front.len() implies (#[trigger] longer_front[i])
            == totals_of_group(table.push(row), front[i].category_group_name).row(
            front[i].category_group_name,
        ) by {
            assert(front[i] == groups[i]);
            assert(longer_front[i] == longer[i]);
        }
        assert forall|i: int, j: int| 0 <= i < j < front.len() implies (
        #[trigger] front[i]).category_group_name != (#[trigger] front[j]).category_group_name by {
            assert(front[i] == groups[i] && front[j] == groups[j]);
        }
        lemma_group_sums_of_one_more_row(front, longer_front, table, row);
        assert(groups.last() == groups[last]);
        assert(longer.last() == longer[last]);
        let in_front = exists|i: int|
            0 <= i < front.len() && (#[trigger] front[i]).category_group_name
                == row.category_group_name;
        let in_groups = exists|i: int|
            0 <= i < groups.len() && (#[trigger] groups[i]).category_group_name
                == row.category_group_name;
        if groups[last].category_group_name == row.category_group_name {
            if in_front {
                let i = choose|i: int|
                    0 <= i < front.len() && (#[trigger] front[i]).category_group_name
                        == row.category_group_name;
                assert(front[i] == groups[i]);
            }
            assert(in_groups);
        } else {
            if in_front {
                let i = choose|i: int|
                    0 <= i < front.len() && (#[trigger] front[i]).category_group_name
                        == row.category_group_name;
                assert(groups[i] == front[i]);
            }
            if in_groups {
                let i = choose|i: int|
                    0 <= i < groups.len() && (#[trigger] groups[i]).category_group_name
                        == row.category_group_name;
                assert(front[i] == groups[i]);
            }
        }
    }
}

/// The totals of groups that are all different and hold every row of the
/// table add up to the sums over the table.
proof fn lemma_sum_of_group_totals(groups: Seq<GroupTotalRowView>, table: Seq<ReportRowView>)
    requires
        forall|i: int, j: int|
            0 <= i < j < groups.len() ==> (#[trigger] groups[i]).category_group_name != (
            #[trigger] groups[j]).category_group_name,
        forall|k: int|
            0 <= k < table.len() ==> exists|i: int|
                0 <= i < groups.len() && (#[trigger] groups[i]).category_group_name == (
                #[trigger] table[k]).category_group_name,
    ensures
        sum_of_totals(
            Seq::new(
                groups.len(),
                |i: int|
                    totals_of_group(table, groups[i].category_group_name).row(
                        groups[i].category_group_name,
                    ),
            ),
        ) == totals_of_all(table),
    decreases table.len(),
{
    let sums = |rows: Seq<ReportRowView>|
        Seq::new(
            groups.len(),
            |i: int|
                totals_of_group(rows, groups[i].category_group_name).row(
                    groups[i].category_group_name,
                ),
        );
    if table.len() == 0 {
        lemma_sum_of_nothing(sums(table));
    } else {
        let front = table.drop_last();
        let row = table.last();
        assert forall|k: int| 0 <= k < front.len() implies exists|i: int|
            0 <= i < groups.len() && (#[trigger] groups[i]).category_group_name == (
            #[trigger] front[k]).category_group_name by {
            assert(front[k] == table[k]);
        }
        lemma_sum_of_group_totals(groups, front);
        assert(front.push(row) =~= table);
        assert(row == table[table.len() - 1]);
        lemma_group_sums_of_one_more_row(sums(front), sums(table), front, row);
        let i = choose|i: int|
            0 <= i < groups.len() && (#[trigger] groups[i]).category_group_name
                == row.category_group_name;
        assert(sums(front)[i].category_group_name == row.category_group_name);
    }
}

/// Totals without amounts add up to nothing.
proof fn lemma_sum_of_nothing(totals: Seq<GroupTotalRowView>)
    requires
        forall|i: int|
            0 <= i < totals.len() ==> (#[trigger] totals[i]).budgeted == 0 && totals[i].spent == 0
                && totals[i].balance == 0,
    ensures
        sum_of_totals(totals) == Totals::zero(),
    decreases totals.len(),
{
    if totals.len() > 0 {
        assert forall|i: int| 0 <= i < totals.drop_last().len() implies (
        #[trigger] totals.drop_last()[i]).budgeted == 0 && totals.drop_last()[i].spent == 0
            && totals.drop_last()[i].balance == 0 by {
            assert(totals.drop_last()[i] == totals[i]);
        }
        lemma_sum_of_nothing(totals.drop_last());
        assert(totals.last() == totals[totals.len() - 1]);
    }
}

/// In a totals table the row `Total` holds the sums of the rows of the
/// groups: each row of the report counts in exactly one group.
pub proof fn lemma_total_is_sum_of_groups(
    totals: Seq<GroupTotalRowView>,
    table: Seq<ReportRowView>,
)
    requires
        is_totals_table(totals, table),
    ensures
        sum_of_totals(totals.drop_last()) == totals_of_all(table),
        totals.last() == sum_of_totals(totals.drop_last()).row(total_label()),
{
    let groups = totals.drop_last();
    assert forall|i: int, j: int| 0 <= i < j < groups.len() implies (
    #[trigger] groups[i]).category_group_name != (#[trigger] groups[j]).category_group_name by {
        lemma_text_order_irreflexive(groups[i].category_group_name);
    }
    lemma_sum_of_group_totals(groups, table);
    assert(groups =~= Seq::new(
        groups.len(),
        |i: int|
            totals_of_group(table, groups[i].category_group_name).row(
                groups[i].category_group_name,
            ),
    ));
}

} // verus!
