//! The report over a list of transactions: totals, balance, the rows of
//! the recorded transactions, and the expenses broken down by category.

use vstd::prelude::*;
use crate::amount::{
    add_parts, checked_add, checked_div, checked_mul, checked_sub, decimal_checked_div, decimal_checked_mul,
    order_amounts, sub_parts, units_of, Amount, AmountOrder, abs, pow10,
};
use crate::date::date_to_string;
use crate::kinds::{tx_type_text, TransactionType};
use crate::models::Transaction;
use crate::laws::{amounts_valid, no_rounding};
use crate::invariance::{expenses_nonnegative, lemma_categories_within_expenses, lemma_no_rounding_sums};

verus! {

/// A recorded transaction as the report lists it.
pub struct ReportTransaction {
    pub id: i64,
    /// `income` or `expense`.
    pub tx_type: String,
    pub category: String,
    pub description: String,
    pub amount: Amount,
    /// `YYYY-MM-DD`.
    pub date: String,
}

/// The total of the expenses of one category.
pub struct CategorySummary {
    pub category: String,
    pub amount: Amount,
    /// The share of the total expenses, in percent: the amount divided by
    /// the total expenses, times one hundred.
    pub percentage: Amount,
}

/// Totals and rows of a list of transactions.
pub struct Report {
    pub total_income: Amount,
    pub total_expenses: Amount,
    pub balance: Amount,
    pub transaction_count: usize,
    pub transactions: Vec<ReportTransaction>,
    pub category_breakdown: Vec<CategorySummary>,
}

/// A category and its total, as (name, (mantissa, scale)).
pub type CategoryTotal = (Seq<char>, (int, int));

/// The transactions that carry an id, in their order.
pub open spec fn recorded(txs: Seq<Transaction>) -> Seq<Transaction>
    decreases txs.len(),
{
    if txs.len() == 0 {
        Seq::empty()
    } else if txs.last().id is Some {
        recorded(txs.drop_last()).push(txs.last())
    } else {
        recorded(txs.drop_last())
    }
}

/// The amounts of the recorded transactions of one kind, in order.
pub open spec fn amounts_of(txs: Seq<Transaction>, kind: TransactionType) -> Seq<(int, int)>
    decreases txs.len(),
{
    if txs.len() == 0 {
        Seq::empty()
    } else if txs.last().id is Some && txs.last().tx_type == kind {
        amounts_of(txs.drop_last(), kind).push(txs.last().amount.pair())
    } else {
        amounts_of(txs.drop_last(), kind)
    }
}

/// The sum of amounts added one by one to zero (`None`: an addition overflows).
pub open spec fn total(s: Seq<(int, int)>) -> Option<(int, int)>
    decreases s.len(),
{
    if s.len() == 0 {
        Some((0, 0))
    } else {
        match total(s.drop_last()) {
            Some(x) => add_parts(x, s.last()),
            None => None,
        }
    }
}

/// Total income of the recorded transactions.
pub open spec fn income_total(txs: Seq<Transaction>) -> Option<(int, int)> {
    total(amounts_of(txs, TransactionType::Income))
}

/// Total expenses of the recorded transactions.
pub open spec fn expense_total(txs: Seq<Transaction>) -> Option<(int, int)> {
    total(amounts_of(txs, TransactionType::Expense))
}

/// Income minus expenses.
pub open spec fn balance_of(txs: Seq<Transaction>) -> Option<(int, int)> {
    match (income_total(txs), expense_total(txs)) {
        (Some(i), Some(e)) => sub_parts(i, e),
        _ => None,
    }
}

/// The index of the first entry named `c`, or -1.
pub open spec fn category_index(cats: Seq<CategoryTotal>, c: Seq<char>) -> int
    decreases cats.len(),
{
    if cats.len() == 0 {
        -1
    } else if category_index(cats.drop_last(), c) >= 0 {
        category_index(cats.drop_last(), c)
    } else if cats.last().0 == c {
        cats.len() - 1
    } else {
        -1
    }
}

/// The expense total of each category, in the order in which the categories
/// first appear among the recorded expenses; each total starts from zero
/// and adds the expenses one by one (`None`: an addition overflows).
pub open spec fn category_totals(txs: Seq<Transaction>) -> Option<Seq<CategoryTotal>>
    decreases txs.len(),
{
    if txs.len() == 0 {
        Some(Seq::empty())
    } else {
        match category_totals(txs.drop_last()) {
            None => None,
            Some(prev) => {
                let t = txs.last();
                if t.id is Some && t.tx_type == TransactionType::Expense {
                    let k = category_index(prev, t.category@);
                    if k < 0 {
                        match add_parts((0, 0), t.amount.pair()) {
                            Some(x) => Some(prev.push((t.category@, x))),
                            None => None,
                        }
                    } else {
                        match add_parts(prev[k].1, t.amount.pair()) {
                            Some(x) => Some(prev.update(k, (t.category@, x))),
                            None => None,
                        }
                    }
                } else {
                    Some(prev)
                }
            }
        }
    }
}

/// Whether every sum that the report takes is defined (no overflow).
pub open spec fn sums_defined(txs: Seq<Transaction>) -> bool {
    &&& income_total(txs) is Some
    &&& expense_total(txs) is Some
    &&& category_totals(txs) is Some
}

/// The share of `e` that `a` makes, in percent: `a / e * 100` with
/// `Decimal`'s division and multiplication (`None`: one of them overflows or
/// `e` is zero).
pub open spec fn percent_of(a: (int, int), e: (int, int)) -> Option<(int, int)> {
    match decimal_checked_div(a.0, a.1, e.0, e.1) {
        Some(q) => decimal_checked_mul(q.0, q.1, 100, 0),
        None => None,
    }
}

/// Whether every category's share of the expenses can be computed (where
/// the expenses are not zero; otherwise no share is computed).
pub open spec fn shares_defined(txs: Seq<Transaction>) -> bool {
    match (expense_total(txs), category_totals(txs)) {
        (Some(e), Some(c)) => e.0 == 0 || forall|i: int| 0 <= i < c.len() ==> (#[trigger] percent_of(c[i].1, e)) is Some,
        _ => false,
    }
}

/// Whether the report can be made without overflow.
pub open spec fn report_defined(txs: Seq<Transaction>) -> bool {
    sums_defined(txs) && balance_of(txs) is Some && shares_defined(txs)
}

/// Every entry's percentage is its share of `e`.
pub open spec fn shares_match(v: Seq<CategorySummary>, e: (int, int)) -> bool {
    forall|i: int| 0 <= i < v.len() ==> Some((#[trigger] v[i]).percentage.pair()) == percent_of(v[i].amount.pair(), e)
}

/// A report row shows transaction `t`.
pub open spec fn row_of(row: ReportTransaction, t: Transaction) -> bool {
    &&& t.id == Some(row.id)
    &&& row.tx_type@ == tx_type_text(t.tx_type)
    &&& row.category@ == t.category@
    &&& row.description@ == t.description@
    &&& row.amount.pair() == t.amount.pair()
    &&& row.date@ == t.date.text()
}

/// The (category, amount) entries of a breakdown.
pub open spec fn breakdown_view(v: Seq<CategorySummary>) -> Seq<CategoryTotal> {
    v.map_values(|s: CategorySummary| (s.category@, s.amount.pair()))
}

/// Entries ordered from the largest amount to the smallest.
pub open spec fn sorted_desc(v: Seq<CategoryTotal>) -> bool {
    forall|i: int, j: int| 0 <= i < j < v.len() ==> units_of(#[trigger] v[i].1) >= units_of(#[trigger] v[j].1)
}

/// The sum of the values of entries, in units of 10^-28.
pub open spec fn sum_units(v: Seq<CategoryTotal>) -> int
    decreases v.len(),
{
    if v.len() == 0 {
        0
    } else {
        sum_units(v.drop_last()) + units_of(v.last().1)
    }
}

/// What a report of `txs` holds.
pub open spec fn is_report_of(r: Report, txs: Seq<Transaction>) -> bool {
    &&& Some(r.total_income.pair()) == income_total(txs)
    &&& Some(r.total_expenses.pair()) == expense_total(txs)
    &&& Some(r.balance.pair()) == balance_of(txs)
    &&& r.transaction_count == r.transactions@.len()
    &&& r.transactions@.len() == recorded(txs).len()
    &&& forall|i: int| 0 <= i < r.transactions@.len() ==> row_of(#[trigger] r.transactions@[i], recorded(txs)[i])
    &&& r.total_expenses.m() == 0 ==> r.category_breakdown@.len() == 0
    &&& r.total_expenses.m() != 0 ==> {
        &&& breakdown_view(r.category_breakdown@).to_multiset() == category_totals(txs).unwrap().to_multiset()
        &&& sorted_desc(breakdown_view(r.category_breakdown@))
        &&& shares_match(r.category_breakdown@, r.total_expenses.pair())
    }
}

/// The first `i + 1` elements are the first `i` and then element `i`.
pub proof fn lemma_take_step<T>(s: Seq<T>, i: int)
    requires
        0 <= i < s.len(),
    ensures
        s.take(i + 1).drop_last() == s.take(i),
        s.take(i + 1).last() == s[i],
        s.take(i + 1).len() == i + 1,
{
    assert(s.take(i + 1).drop_last() =~= s.take(i));
}

/// The sum of a sequence with one more amount adds that amount to the sum.
proof fn lemma_total_push(s: Seq<(int, int)>, x: (int, int))
    ensures
        total(s.push(x)) == (match total(s) {
            Some(t) => add_parts(t, x),
            None => None,
        }),
{
    assert(s.push(x).drop_last() =~= s);
}

/// Dropping the last transaction keeps every sum defined.
proof fn lemma_sums_defined_drop_last(txs: Seq<Transaction>)
    requires
        txs.len() > 0,
        sums_defined(txs),
    ensures
        sums_defined(txs.drop_last()),
{
    let p = txs.drop_last();
    lemma_total_push(amounts_of(p, TransactionType::Income), txs.last().amount.pair());
    lemma_total_push(amounts_of(p, TransactionType::Expense), txs.last().amount.pair());
}

/// Every prefix of a list whose sums are defined has defined sums.
pub proof fn lemma_sums_defined_prefix(txs: Seq<Transaction>, i: int)
    requires
        0 <= i <= txs.len(),
        sums_defined(txs),
    ensures
        sums_defined(txs.take(i)),
    decreases txs.len() - i,
{
    if i == txs.len() {
        assert(txs.take(i) =~= txs);
    } else {
        lemma_sums_defined_prefix(txs, i + 1);
        lemma_take_step(txs, i);
        lemma_sums_defined_drop_last(txs.take(i + 1));
    }
}

/// `category_index` is the first entry with that name, or -1 when none has it.
pub proof fn lemma_category_index(cats: Seq<CategoryTotal>, c: Seq<char>)
    ensures
        -1 <= category_index(cats, c) < cats.len(),
        category_index(cats, c) >= 0 ==> cats[category_index(cats, c)].0 == c,
        forall|j: int| 0 <= j < cats.len() && (category_index(cats, c) < 0 || j < category_index(cats, c))
            ==> #[trigger] cats[j].0 != c,
    decreases cats.len(),
{
    if cats.len() > 0 {
        let p = cats.drop_last();
        lemma_category_index(p, c);
        assert forall|j: int| 0 <= j < cats.len() && (category_index(cats, c) < 0 || j < category_index(cats, c))
            implies #[trigger] cats[j].0 != c by {
            if j < p.len() {
                assert(cats[j] == p[j]);
            }
        }
    }
}

/// The (category, amount) entry of a summary.
pub open spec fn summary_entry(s: CategorySummary) -> CategoryTotal {
    (s.category@, s.amount.pair())
}

/// Sums the recorded transactions and groups the expenses by category.
/// `None` where one of the sums overflows.
///
/// The category totals are kept in a vector in the order in which the
/// categories first appear, and a category is found by a search over it;
/// each name occurs once (`lemma_category_totals_names`). A map keyed by the
/// category's text would state no more: its walking order is not fixed.
fn accumulate(txs: &[Transaction]) -> (r: Option<(Amount, Amount, Vec<ReportTransaction>, Vec<CategorySummary>)>)
    ensures
        r is Some <==> sums_defined(txs@),
        r matches Some(x) ==> {
            &&& Some(x.0.pair()) == income_total(txs@)
            &&& Some(x.1.pair()) == expense_total(txs@)
            &&& x.2@.len() == recorded(txs@).len()
            &&& forall|i: int| 0 <= i < x.2@.len() ==> row_of(#[trigger] x.2@[i], recorded(txs@)[i])
            &&& Some(breakdown_view(x.3@)) == category_totals(txs@)
        },
{
    let mut income = Amount::zero();
    let mut expenses = Amount::zero();
    let mut rows: Vec<ReportTransaction> = Vec::new();
    let mut by_category: Vec<CategorySummary> = Vec::new();
    let n = txs.len();
    let mut i: usize = 0;
    while i < n
        invariant
            n == txs@.len(),
            i <= n,
            sums_defined(txs@.take(i as int)),
            Some(income.pair()) == income_total(txs@.take(i as int)),
            Some(expenses.pair()) == expense_total(txs@.take(i as int)),
            rows@.len() == recorded(txs@.take(i as int)).len(),
            forall|k: int| 0 <= k < rows@.len() ==> row_of(#[trigger] rows@[k], recorded(txs@.take(i as int))[k]),
            Some(breakdown_view(by_category@)) == category_totals(txs@.take(i as int)),
        decreases n - i,
    {
        let tx = &txs[i];
        let ghost prefix = txs@.take(i as int);
        let ghost next = txs@.take(i + 1);
        proof {
            lemma_take_step(txs@, i as int);
            if sums_defined(txs@) {
                lemma_sums_defined_prefix(txs@, i + 1);
            }
            lemma_total_push(amounts_of(prefix, TransactionType::Income), tx.amount.pair());
            lemma_total_push(amounts_of(prefix, TransactionType::Expense), tx.amount.pair());
        }
        match tx.id {
            None => {},
            Some(id) => {
                let row = ReportTransaction {
                    id,
                    tx_type: tx.tx_type.to_string(),
                    category: tx.category.clone(),
                    description: tx.description.clone(),
                    amount: tx.amount,
                    date: date_to_string(&tx.date),
                };
                rows.push(row);
                assert(recorded(next) == recorded(prefix).push(*tx));
                match tx.tx_type {
                    TransactionType::Income => {
                        match checked_add(&income, &tx.amount) {
                            Some(x) => {
                                income = x;
                            },
                            None => {
                                return None;
                            },
                        }
                    },
                    TransactionType::Expense => {
                        match checked_add(&expenses, &tx.amount) {
                            Some(x) => {
                                expenses = x;
                            },
                            None => {
                                return None;
                            },
                        }
                        let ghost cats = breakdown_view(by_category@);
                        proof {
                            lemma_category_index(cats, tx.category@);
                        }
                        let mut j: usize = 0;
                        let mut found = false;
                        while j < by_category.len()
                            invariant_except_break
                                !found,
                            invariant
                                cats == breakdown_view(by_category@),
                                j <= by_category@.len(),
                                forall|jj: int| 0 <= jj < j ==> #[trigger] cats[jj].0 != tx.category@,
                            ensures
                                cats == breakdown_view(by_category@),
                                j <= by_category@.len(),
                                forall|jj: int| 0 <= jj < j ==> #[trigger] cats[jj].0 != tx.category@,
                                found ==> j < by_category@.len() && cats[j as int].0 == tx.category@,
                                !found ==> j == by_category@.len(),
                            decreases by_category.len() - j,
                        {
                            if by_category[j].category == tx.category {
                                found = true;
                                break;
                            }
                            j = j + 1;
                        }
                        if found {
                            assert(category_index(cats, tx.category@) == j);
                            let zero_total = by_category[j].amount;
                            match checked_add(&zero_total, &tx.amount) {
                                Some(x) => {
                                    by_category.set(
                                        j,
                                        CategorySummary {
                                            category: tx.category.clone(),
                                            amount: x,
                                            percentage: Amount::zero(),
                                        },
                                    );
                                    assert(breakdown_view(by_category@) =~= cats.update(j as int, (tx.category@, x.pair())));
                                },
                                None => {
                                    return None;
                                },
                            }
                        } else {
                            proof {
                                let k = category_index(cats, tx.category@);
                                if k >= 0 {
                                    assert(cats[k].0 != tx.category@);
                                }
                            }
                            let zero = Amount::zero();
                            match checked_add(&zero, &tx.amount) {
                                Some(x) => {
                                    by_category.push(
                                        CategorySummary {
                                            category: tx.category.clone(),
                                            amount: x,
                                            percentage: Amount::zero(),
                                        },
                                    );
                                    assert(breakdown_view(by_category@) =~= cats.push((tx.category@, x.pair())));
                                },
                                None => {
                                    return None;
                                },
                            }
                        }
                    },
                }
            },
        }
        i = i + 1;
    }
    assert(txs@.take(n as int) =~= txs@);
    Some((income, expenses, rows, by_category))
}

/// The sum over a concatenation is the sum of the sums.
pub proof fn lemma_sum_units_append(a: Seq<CategoryTotal>, b: Seq<CategoryTotal>)
    ensures
        sum_units(a + b) == sum_units(a) + sum_units(b),
    decreases b.len(),
{
    if b.len() == 0 {
        assert(a + b =~= a);
    } else {
        lemma_sum_units_append(a, b.drop_last());
        assert((a + b).drop_last() =~= a + b.drop_last());
    }
}

/// Inserting an entry adds it to the multiset and to the sum.
pub proof fn lemma_insert_entry(s: Seq<CategoryTotal>, j: int, x: CategoryTotal)
    requires
        0 <= j <= s.len(),
    ensures
        s.insert(j, x).to_multiset() == s.to_multiset().insert(x),
        sum_units(s.insert(j, x)) == sum_units(s) + units_of(x.1),
{
    broadcast use vstd::seq_lib::group_to_multiset_ensures;
    broadcast use vstd::multiset::group_multiset_axioms;

    let t = s.insert(j, x);
    assert(t.remove(j) =~= s);
    assert(t[j] == x);
    assert(t.to_multiset().count(x) > 0) by {
        assert(t.contains(x));
    }
    assert(t.to_multiset() =~= s.to_multiset().insert(x));
    let front = s.take(j);
    let back = s.skip(j);
    assert(t =~= front.push(x) + back);
    assert(s =~= front + back);
    lemma_sum_units_append(front.push(x), back);
    lemma_sum_units_append(front, back);
    assert(front.push(x).drop_last() =~= front);
}

/// Inserting an entry at the first position whose amount is smaller keeps
/// the entries ordered from the largest amount to the smallest.
proof fn lemma_sorted_insert(before: Seq<CategoryTotal>, j: int, x: CategoryTotal)
    requires
        0 <= j <= before.len(),
        sorted_desc(before),
        forall|k: int| 0 <= k < j ==> units_of(#[trigger] before[k].1) >= units_of(x.1),
        j < before.len() ==> units_of(before[j].1) < units_of(x.1),
    ensures
        sorted_desc(before.insert(j, x)),
{
    let after = before.insert(j, x);
    before.insert_ensures(j, x);
    assert forall|a: int, b: int| 0 <= a < b < after.len() implies units_of(#[trigger] after[a].1)
        >= units_of(#[trigger] after[b].1) by {
        if b < j {
            assert(after[a] == before[a]);
            assert(after[b] == before[b]);
        } else if b == j {
            assert(after[a] == before[a]);
        } else {
            assert(after[b] == before[b - 1]);
            if b - 1 > j {
                assert(units_of(before[j].1) >= units_of(before[b - 1].1));
            }
            if a < j {
                assert(after[a] == before[a]);
            } else if a > j {
                assert(after[a] == before[a - 1]);
            }
        }
    }
}

/// One more entry of `v` taken into a sorted copy keeps the copy a
/// permutation of the entries taken so far, with the same sum.
proof fn lemma_take_one_more(
    all: Seq<CategoryTotal>,
    i: int,
    before: Seq<CategoryTotal>,
    j: int,
    x: CategoryTotal,
)
    requires
        0 <= i < all.len(),
        0 <= j <= before.len(),
        x == all[i],
        before.to_multiset() == all.take(i).to_multiset(),
        sum_units(before) == sum_units(all.take(i)),
    ensures
        before.insert(j, x).to_multiset() == all.take(i + 1).to_multiset(),
        sum_units(before.insert(j, x)) == sum_units(all.take(i + 1)),
{
    broadcast use vstd::seq_lib::group_to_multiset_ensures;

    lemma_insert_entry(before, j, x);
    lemma_take_step(all, i);
    assert(all.take(i + 1) =~= all.take(i).push(x));
}

/// The entries reordered from the largest amount to the smallest; among
/// equal amounts the earlier entry stays first.
fn sort_by_amount_desc(v: &Vec<CategorySummary>, Ghost(e): Ghost<(int, int)>) -> (r: Vec<CategorySummary>)
    requires
        shares_match(v@, e),
    ensures
        shares_match(r@, e),
        breakdown_view(r@).to_multiset() == breakdown_view(v@).to_multiset(),
        sorted_desc(breakdown_view(r@)),
        sum_units(breakdown_view(r@)) == sum_units(breakdown_view(v@)),
{
    let mut sorted: Vec<CategorySummary> = Vec::new();
    let n = v.len();
    let mut i: usize = 0;
    proof {
        assert(breakdown_view(sorted@) =~= breakdown_view(v@).take(0));
    }
    while i < n
        invariant
            n == v@.len(),
            i <= n,
            breakdown_view(sorted@).to_multiset() == breakdown_view(v@).take(i as int).to_multiset(),
            sum_units(breakdown_view(sorted@)) == sum_units(breakdown_view(v@).take(i as int)),
            sorted_desc(breakdown_view(sorted@)),
            shares_match(v@, e),
            shares_match(sorted@, e),
        decreases n - i,
    {
        let entry = CategorySummary {
            category: v[i].category.clone(),
            amount: v[i].amount,
            percentage: v[i].percentage,
        };
        assert(Some(entry.percentage.pair()) == percent_of(entry.amount.pair(), e)) by {
            assert(v@[i as int] == v[i as int]);
        }
        let ghost before = breakdown_view(sorted@);
        let ghost x = summary_entry(entry);
        assert(x == breakdown_view(v@)[i as int]);
        let mut j: usize = 0;
        let mut stop = false;
        while j < sorted.len()
            invariant_except_break
                !stop,
            invariant
                before == breakdown_view(sorted@),
                x == summary_entry(entry),
                j <= sorted@.len(),
                forall|k: int| 0 <= k < j ==> units_of(#[trigger] before[k].1) >= units_of(x.1),
            ensures
                before == breakdown_view(sorted@),
                j <= sorted@.len(),
                forall|k: int| 0 <= k < j ==> units_of(#[trigger] before[k].1) >= units_of(x.1),
                j < sorted@.len() ==> units_of(before[j as int].1) < units_of(x.1),
            decreases sorted.len() - j,
        {
            assert(before[j as int] == summary_entry(sorted@[j as int]));
            match order_amounts(&sorted[j].amount, &entry.amount) {
                AmountOrder::Less => {
                    stop = true;
                    break;
                },
                _ => {
                    j = j + 1;
                },
            }
        }
        let ghost old_sorted = sorted@;
        sorted.insert(j, entry);
        proof {
            old_sorted.insert_ensures(j as int, entry);
            assert(sorted@ == old_sorted.insert(j as int, entry));
            assert forall|k: int| 0 <= k < sorted@.len() implies Some((#[trigger] sorted@[k]).percentage.pair())
                == percent_of(sorted@[k].amount.pair(), e) by {
                if k < j {
                    assert(sorted@[k] == old_sorted[k]);
                } else if k > j {
                    assert(sorted@[k] == old_sorted[k - 1]);
                }
            }
            assert(breakdown_view(sorted@) =~= before.insert(j as int, x));
            lemma_sorted_insert(before, j as int, x);
            lemma_take_one_more(breakdown_view(v@), i as int, before, j as int, x);
        }
        i = i + 1;
    }
    assert(breakdown_view(v@).take(n as int) =~= breakdown_view(v@));
    sorted
}

/// Every entry's value is at most `e`'s in magnitude, and `e` is not zero.
pub open spec fn within(v: Seq<CategorySummary>, e: Amount) -> bool {
    e.m() != 0 && forall|i: int| 0 <= i < v.len() ==> abs((#[trigger] v[i]).amount.units()) <= abs(e.units())
}

/// A share of magnitude at most one, times one hundred, has a value far
/// below 10^27.
proof fn lemma_share_bound(uq: int, uh: int)
    requires
        abs(uq) <= pow10(28),
        uh == 100 * pow10(28),
    ensures
        abs(uq * uh) < pow10(83),
{
    let p = pow10(28);
    crate::laws::lemma_pow10_add(28, 55);
    crate::laws::lemma_pow10_add(28, 27);
    crate::laws::lemma_pow10_add(3, 24);
    crate::invariance::lemma_pow10_positive(28);
    crate::invariance::lemma_pow10_positive(24);
    reveal_with_fuel(pow10, 4);
    let q = pow10(27);
    assert(q >= 1000) by (nonlinear_arith)
        requires
            q == 1000 * pow10(24),
            pow10(24) > 0,
    ;
    assert(pow10(83) == p * (p * q));
    assert(abs(uq * uh) < p * (p * q)) by (nonlinear_arith)
        requires
            abs(uq) <= p,
            uh == 100 * p,
            p > 0,
            q >= 1000,
    ;
}

/// The entries with their shares of `expenses`; `None` where a share cannot
/// be computed, which cannot happen where every entry is at most the
/// expenses in magnitude.
fn with_shares(v: &Vec<CategorySummary>, expenses: &Amount) -> (r: Option<Vec<CategorySummary>>)
    ensures
        r is Some <==> forall|i: int|
            0 <= i < v@.len() ==> (#[trigger] percent_of(v@[i].amount.pair(), expenses.pair())) is Some,
        r matches Some(x) ==> breakdown_view(x@) == breakdown_view(v@) && shares_match(x@, expenses.pair()),
        within(v@, *expenses) ==> r is Some,
{
    let hundred = Amount::hundred();
    let mut out: Vec<CategorySummary> = Vec::new();
    let n = v.len();
    let mut i: usize = 0;
    while i < n
        invariant
            n == v@.len(),
            i <= n,
            hundred.pair() == (100int, 0int),
            out@.len() == i,
            forall|k: int| 0 <= k < i ==> (#[trigger] out@[k]).category@ == v@[k].category@,
            forall|k: int| 0 <= k < i ==> (#[trigger] out@[k]).amount == v@[k].amount,
            forall|k: int| 0 <= k < i ==> (#[trigger] percent_of(v@[k].amount.pair(), expenses.pair())) is Some,
            shares_match(out@, expenses.pair()),
        decreases n - i,
    {
        let share = match checked_div(&v[i].amount, expenses) {
            Some(q) => match checked_mul(&q, &hundred) {
                Some(p) => p,
                None => {
                    assert(percent_of(v@[i as int].amount.pair(), expenses.pair()) is None);
                    proof {
                        if within(v@, *expenses) {
                            assert(abs(v@[i as int].amount.units()) <= abs(expenses.units()));
                            lemma_share_bound(q.units(), hundred.units());
                        }
                    }
                    return None;
                },
            },
            None => {
                assert(percent_of(v@[i as int].amount.pair(), expenses.pair()) is None);
                proof {
                    if within(v@, *expenses) {
                        assert(abs(v@[i as int].amount.units()) <= abs(expenses.units()));
                    }
                }
                return None;
            },
        };
        out.push(CategorySummary { category: v[i].category.clone(), amount: v[i].amount, percentage: share });
        i = i + 1;
    }
    assert(breakdown_view(out@) =~= breakdown_view(v@));
    Some(out)
}

/// The report of the transactions: the rows of the transactions that carry
/// an id, in order; the totals of their incomes and of their expenses, each
/// added one by one to zero; income minus expenses; and, where the expenses
/// are not zero, the expense total of each category from the largest to the
/// smallest.
pub fn generate_report(transactions: &[Transaction]) -> (r: Report)
    requires
        report_defined(transactions@),
    ensures
        is_report_of(r, transactions@),
{
    if transactions.len() == 0 {
        proof {
            reveal_strlit("");
            assert(breakdown_view(Seq::<CategorySummary>::empty()) =~= Seq::<CategoryTotal>::empty());
        }
        return Report {
            total_income: Amount::zero(),
            total_expenses: Amount::zero(),
            balance: Amount::zero(),
            transaction_count: 0,
            transactions: Vec::new(),
            category_breakdown: Vec::new(),
        };
    }
    match accumulate(transactions) {
        None => {
            proof {
                assert(false);
            }
            Report {
                total_income: Amount::zero(),
                total_expenses: Amount::zero(),
                balance: Amount::zero(),
                transaction_count: 0,
                transactions: Vec::new(),
                category_breakdown: Vec::new(),
            }
        },
        Some((income, expenses, rows, by_category)) => {
            let balance = match checked_sub(&income, &expenses) {
                Some(b) => b,
                None => {
                    proof {
                        assert(false);
                    }
                    income
                },
            };
            let breakdown = if expenses.is_zero() {
                Vec::new()
            } else {
                match with_shares(&by_category, &expenses) {
                    Some(shared) => sort_by_amount_desc(&shared, Ghost(expenses.pair())),
                    None => {
                        proof {
                            let c = breakdown_view(by_category@);
                            let k = choose|k: int|
                                0 <= k < by_category@.len() && percent_of(by_category@[k].amount.pair(), expenses.pair())
                                    is None;
                            assert(c[k].1 == by_category@[k].amount.pair());
                            assert(percent_of(c[k].1, expenses.pair()) is Some);
                        }
                        Vec::new()
                    },
                }
            };
            let count = rows.len();
            Report {
                total_income: income,
                total_expenses: expenses,
                balance,
                transaction_count: count,
                transactions: rows,
                category_breakdown: breakdown,
            }
        },
    }
}

/// The report of the transactions, or `None` where one of its sums overflows
/// (where `generate_report` cannot be called). There is a report wherever no
/// sum needs rounding and no recorded expense is negative.
pub fn try_generate_report(transactions: &[Transaction]) -> (r: Option<Report>)
    ensures
        r is Some <==> report_defined(transactions@),
        r matches Some(x) ==> is_report_of(x, transactions@),
        amounts_valid(transactions@) && no_rounding(transactions@) && expenses_nonnegative(transactions@) ==> r is Some,
{
    let ghost bounded = amounts_valid(transactions@) && no_rounding(transactions@) && expenses_nonnegative(
        transactions@,
    );
    proof {
        if bounded {
            lemma_no_rounding_sums(transactions@);
            lemma_categories_within_expenses(transactions@);
        }
    }
    match accumulate(transactions) {
        None => None,
        Some((income, expenses, _rows, by_category)) => {
            match checked_sub(&income, &expenses) {
                None => None,
                Some(_b) => {
                    if expenses.is_zero() {
                        Some(generate_report(transactions))
                    } else {
                        proof {
                            if bounded {
                                let c = breakdown_view(by_category@);
                                assert forall|i: int| 0 <= i < by_category@.len() implies abs(
                                    (#[trigger] by_category@[i]).amount.units(),
                                ) <= abs(expenses.units()) by {
                                    assert(c[i].1 == by_category@[i].amount.pair());
                                    assert(0 <= units_of(c[i].1) <= units_of(expense_total(transactions@).unwrap()));
                                }
                                assert(within(by_category@, expenses));
                            }
                        }
                        match with_shares(&by_category, &expenses) {
                            None => {
                                proof {
                                    let c = breakdown_view(by_category@);
                                    let k = choose|k: int|
                                        0 <= k < by_category@.len() && percent_of(
                                            by_category@[k].amount.pair(),
                                            expenses.pair(),
                                        ) is None;
                                    assert(c[k].1 == by_category@[k].amount.pair());
                                    assert(percent_of(c[k].1, expenses.pair()) is None);
                                }
                                None
                            },
                            Some(_shared) => {
                                proof {
                                    let c = breakdown_view(by_category@);
                                    assert forall|i: int| 0 <= i < c.len() implies (#[trigger] percent_of(
                                        c[i].1,
                                        expenses.pair(),
                                    )) is Some by {
                                        assert(c[i].1 == by_category@[i].amount.pair());
                                    }
                                }
                                Some(generate_report(transactions))
                            },
                        }
                    }
                },
            }
        },
    }
}

} // verus!
