//! What a report does not depend on: transactions without an id, and the
//! order in which the transactions come.

use vstd::prelude::*;
use crate::kinds::TransactionType;
use crate::models::Transaction;
use crate::amount::{exact_sum, pow10, units_of, Amount};
use crate::laws::{
    amounts_valid, categories_exact, has_category, is_expense_category, is_recorded_expense, law_breakdown_categories, law_report_sums, lemma_amounts_valid_drop_last,
    lemma_category_totals_names, lemma_category_totals_sum, lemma_exact_sum_units, no_rounding, units_sum, lemma_amounts_scales, lemma_total_exact,
};
use crate::report::{amounts_of, balance_of, expense_total, income_total, report_defined, sums_defined, category_index, lemma_category_index, breakdown_view, category_totals, is_report_of, recorded, row_of, CategorySummary, Report,
    ReportTransaction,
};

verus! {

/// The fields of a report row.
pub open spec fn row_fields(r: ReportTransaction) -> (i64, Seq<char>, Seq<char>, Seq<char>, (int, int), Seq<char>) {
    (r.id, r.tx_type@, r.category@, r.description@, r.amount.pair(), r.date@)
}

/// The fields of each row, in order.
pub open spec fn rows_fields(v: Seq<ReportTransaction>) -> Seq<(i64, Seq<char>, Seq<char>, Seq<char>, (int, int), Seq<char>)> {
    v.map_values(|r: ReportTransaction| row_fields(r))
}

/// Inserting a transaction without an id changes none of the sequences that
/// a report is made from.
proof fn lemma_unrecorded_insert(txs: Seq<Transaction>, k: int, x: Transaction)
    requires
        x.id is None,
        0 <= k <= txs.len(),
    ensures
        recorded(txs.insert(k, x)) == recorded(txs),
        amounts_of(txs.insert(k, x), TransactionType::Income) == amounts_of(txs, TransactionType::Income),
        amounts_of(txs.insert(k, x), TransactionType::Expense) == amounts_of(txs, TransactionType::Expense),
        category_totals(txs.insert(k, x)) == category_totals(txs),
    decreases txs.len(),
{
    let s = txs.insert(k, x);
    if k == txs.len() {
        assert(s.drop_last() =~= txs);
        assert(s.last() == x);
    } else {
        lemma_unrecorded_insert(txs.drop_last(), k, x);
        assert(s.drop_last() =~= txs.drop_last().insert(k, x));
        assert(s.last() == txs.last());
    }
}

/// A transaction without an id, inserted anywhere, changes neither whether
/// a report can be made nor, where it can, the sums it is made of.
pub proof fn law_unrecorded_keeps_report_defined(txs: Seq<Transaction>, x: Transaction, k: int)
    requires
        x.id is None,
        0 <= k <= txs.len(),
    ensures
        report_defined(txs.insert(k, x)) == report_defined(txs),
        income_total(txs.insert(k, x)) == income_total(txs),
        expense_total(txs.insert(k, x)) == expense_total(txs),
        category_totals(txs.insert(k, x)) == category_totals(txs),
{
    lemma_unrecorded_insert(txs, k, x);
}

/// A transaction without an id, inserted anywhere, changes nothing in the
/// report: the same totals, balance and count, the same rows in the same
/// order, and the same category totals.
pub proof fn law_unrecorded_ignored(txs: Seq<Transaction>, x: Transaction, k: int, a: Report, b: Report)
    requires
        x.id is None,
        0 <= k <= txs.len(),
        is_report_of(a, txs),
        is_report_of(b, txs.insert(k, x)),
    ensures
        a.total_income.pair() == b.total_income.pair(),
        a.total_expenses.pair() == b.total_expenses.pair(),
        a.balance.pair() == b.balance.pair(),
        a.transaction_count == b.transaction_count,
        rows_fields(a.transactions@) == rows_fields(b.transactions@),
        breakdown_view(a.category_breakdown@).to_multiset() == breakdown_view(b.category_breakdown@).to_multiset(),
{
    lemma_unrecorded_insert(txs, k, x);
    let s = txs.insert(k, x);
    let ra = rows_fields(a.transactions@);
    let rb = rows_fields(b.transactions@);
    assert forall|i: int| 0 <= i < ra.len() implies ra[i] == rb[i] by {
        assert(row_of(a.transactions@[i], recorded(txs)[i]));
        assert(row_of(b.transactions@[i], recorded(s)[i]));
    }
    assert(ra =~= rb);
    if a.total_expenses.m() == 0 {
        assert(breakdown_view(a.category_breakdown@) =~= breakdown_view(b.category_breakdown@));
    }
}

/// The sum, over the transactions, of what `w` gives each.
pub open spec fn weight(s: Seq<Transaction>, w: spec_fn(Transaction) -> int) -> int
    decreases s.len(),
{
    if s.len() == 0 {
        0
    } else {
        weight(s.drop_last(), w) + w(s.last())
    }
}

/// The value of a recorded transaction of kind `kind`, in units of 10^-28;
/// zero for any other transaction.
pub open spec fn kind_weight(kind: TransactionType) -> spec_fn(Transaction) -> int {
    |t: Transaction| if t.id is Some && t.tx_type == kind { units_of(t.amount.pair()) } else { 0 }
}

/// The value of a recorded expense of category `c`, in units of 10^-28;
/// zero for any other transaction.
pub open spec fn category_weight(c: Seq<char>) -> spec_fn(Transaction) -> int {
    |t: Transaction| if is_recorded_expense(t) && t.category@ == c { units_of(t.amount.pair()) } else { 0 }
}

/// Taking one transaction out takes its weight out of the sum.
proof fn lemma_weight_remove(s: Seq<Transaction>, j: int, w: spec_fn(Transaction) -> int)
    requires
        0 <= j < s.len(),
    ensures
        weight(s, w) == weight(s.remove(j), w) + w(s[j]),
    decreases s.len(),
{
    if j == s.len() - 1 {
        assert(s.remove(j) =~= s.drop_last());
    } else {
        lemma_weight_remove(s.drop_last(), j, w);
        assert(s.remove(j).drop_last() =~= s.drop_last().remove(j));
        assert(s.remove(j).last() == s.last());
        assert(s.drop_last()[j] == s[j]);
    }
}

/// Transactions in another order have the same weighted sum.
pub proof fn lemma_weight_permutation(a: Seq<Transaction>, b: Seq<Transaction>, w: spec_fn(Transaction) -> int)
    requires
        a.to_multiset() == b.to_multiset(),
    ensures
        weight(a, w) == weight(b, w),
    decreases a.len(),
{
    broadcast use vstd::seq_lib::group_to_multiset_ensures;
    broadcast use vstd::multiset::group_multiset_axioms;

    if a.len() == 0 {
        assert(a.to_multiset().len() == a.len());
        assert(b.to_multiset().len() == b.len());
        assert(b.len() == 0);
    } else {
        let x = a.last();
        let p = a.drop_last();
        assert(a =~= p.push(x));
        assert(a.to_multiset() =~= p.to_multiset().insert(x));
        assert(b.to_multiset().count(x) > 0);
        assert(b.contains(x));
        let k = choose|k: int| 0 <= k < b.len() && b[k] == x;
        let q = b.remove(k);
        assert(q.to_multiset() =~= b.to_multiset().remove(x));
        assert(p.to_multiset() =~= a.to_multiset().remove(x));
        lemma_weight_permutation(p, q, w);
        lemma_weight_remove(b, k, w);
    }
}

/// The sum of the amounts of one kind is their weighted sum.
pub(crate) proof fn lemma_units_sum_weight(s: Seq<Transaction>, kind: TransactionType)
    ensures
        units_sum(amounts_of(s, kind)) == weight(s, kind_weight(kind)),
    decreases s.len(),
{
    if s.len() > 0 {
        lemma_units_sum_weight(s.drop_last(), kind);
        let a = amounts_of(s.drop_last(), kind);
        if s.last().id is Some && s.last().tx_type == kind {
            assert(a.push(s.last().amount.pair()).drop_last() =~= a);
        }
    }
}

/// The recorded transactions hold each transaction with an id as often as
/// the list does, and none without.
pub(crate) proof fn lemma_recorded_count(s: Seq<Transaction>)
    ensures
        forall|v: Transaction|
            #[trigger] recorded(s).to_multiset().count(v) == (if v.id is Some {
                s.to_multiset().count(v)
            } else {
                0
            }),
    decreases s.len(),
{
    broadcast use vstd::seq_lib::group_to_multiset_ensures;
    broadcast use vstd::multiset::group_multiset_axioms;

    if s.len() == 0 {
        assert forall|v: Transaction| #[trigger] recorded(s).to_multiset().count(v) == (if v.id is Some {
            s.to_multiset().count(v)
        } else {
            0
        }) by {
            assert(!s.contains(v));
            assert(!recorded(s).contains(v));
        }
    } else {
        let p = s.drop_last();
        let t = s.last();
        lemma_recorded_count(p);
        assert(s =~= p.push(t));
        assert(p.push(t).to_multiset() =~= p.to_multiset().insert(t));
        if t.id is Some {
            assert(recorded(s) == recorded(p).push(t));
            assert(recorded(p).push(t).to_multiset() =~= recorded(p).to_multiset().insert(t));
        } else {
            assert(recorded(s) == recorded(p));
        }
        assert forall|v: Transaction| #[trigger] recorded(s).to_multiset().count(v) == (if v.id is Some {
            s.to_multiset().count(v)
        } else {
            0
        }) by {
            assert(recorded(p).to_multiset().count(v) == (if v.id is Some {
                p.to_multiset().count(v)
            } else {
                0
            }));
        }
    }
}

/// Where every addition into a category is exact, each category's total is
/// the weighted sum of its recorded expenses, and a category that has no
/// total has none.
pub(crate) proof fn lemma_category_weights(s: Seq<Transaction>)
    requires
        amounts_valid(s),
        categories_exact(s),
    ensures
        category_totals(s) is Some,
        forall|i: int|
            0 <= i < category_totals(s).unwrap().len() ==> units_of((#[trigger] category_totals(s).unwrap()[i]).1)
                == weight(s, category_weight(category_totals(s).unwrap()[i].0)),
        forall|c: Seq<char>| !has_category(category_totals(s).unwrap(), c) ==> #[trigger] weight(s, category_weight(c)) == 0,
    decreases s.len(),
{
    lemma_category_totals_sum(s);
    if s.len() > 0 {
        let p = s.drop_last();
        lemma_amounts_valid_drop_last(s);
        lemma_category_weights(p);
        lemma_category_totals_sum(p);
        lemma_category_totals_names(p);
        let prev = category_totals(p).unwrap();
        let ct = category_totals(s).unwrap();
        let t = s.last();
        let amt = t.amount.pair();
        assert forall|c: Seq<char>| #[trigger] weight(s, category_weight(c)) == weight(p, category_weight(c)) + (if is_recorded_expense(t)
            && t.category@ == c {
            units_of(amt)
        } else {
            0
        }) by {}
        if is_recorded_expense(t) {
            let tc = t.category@;
            let idx = category_index(prev, tc);
            lemma_category_index(prev, tc);
            if idx < 0 {
                lemma_exact_sum_units((0, 0), amt);
                let x = exact_sum((0, 0), amt);
                assert(ct == prev.push((tc, x)));
                assert(!has_category(prev, tc)) by {
                    if has_category(prev, tc) {
                        let i = choose|i: int| 0 <= i < prev.len() && (#[trigger] prev[i]).0 == tc;
                        assert(prev[i].0 != tc);
                    }
                }
                assert forall|i: int| 0 <= i < ct.len() implies units_of((#[trigger] ct[i]).1) == weight(
                    s,
                    category_weight(ct[i].0),
                ) by {
                    if i < prev.len() {
                        assert(ct[i] == prev[i]);
                        assert(prev[i].0 != tc);
                        assert(units_of(prev[i].1) == weight(p, category_weight(prev[i].0)));
                        assert(weight(s, category_weight(prev[i].0)) == weight(p, category_weight(prev[i].0)));
                    } else {
                        assert(weight(p, category_weight(tc)) == 0);
                        assert(weight(s, category_weight(tc)) == weight(p, category_weight(tc)) + units_of(amt));
                    }
                }
                assert forall|c: Seq<char>| !has_category(ct, c) implies #[trigger] weight(s, category_weight(c)) == 0 by {
                    if c == tc {
                        assert(ct[ct.len() - 1].0 == c);
                    }
                    if has_category(prev, c) {
                        let i = choose|i: int| 0 <= i < prev.len() && (#[trigger] prev[i]).0 == c;
                        assert(ct[i] == prev[i]);
                    }
                    assert(weight(p, category_weight(c)) == 0);
                    assert(weight(s, category_weight(c)) == weight(p, category_weight(c)) + 0);
                }
            } else {
                assert(0 <= prev[idx].1 .1 <= 28);
                lemma_exact_sum_units(prev[idx].1, amt);
                let x = exact_sum(prev[idx].1, amt);
                assert(ct == prev.update(idx, (tc, x)));
                assert forall|i: int| 0 <= i < ct.len() implies units_of((#[trigger] ct[i]).1) == weight(
                    s,
                    category_weight(ct[i].0),
                ) by {
                    assert(units_of(prev[i].1) == weight(p, category_weight(prev[i].0)));
                    if i != idx {
                        assert(ct[i] == prev[i]);
                        if i < idx {
                            assert(prev[i].0 != prev[idx].0);
                        } else {
                            assert(prev[idx].0 != prev[i].0);
                        }
                        assert(weight(s, category_weight(prev[i].0)) == weight(p, category_weight(prev[i].0)));
                    } else {
                        assert(weight(s, category_weight(tc)) == weight(p, category_weight(tc)) + units_of(amt));
                    }
                }
                assert forall|c: Seq<char>| !has_category(ct, c) implies #[trigger] weight(s, category_weight(c)) == 0 by {
                    if c == tc {
                        assert(ct[idx].0 == c);
                    }
                    if has_category(prev, c) {
                        let i = choose|i: int| 0 <= i < prev.len() && (#[trigger] prev[i]).0 == c;
                        assert(ct[i].0 == prev[i].0);
                    }
                    assert(weight(p, category_weight(c)) == 0);
                    assert(weight(s, category_weight(c)) == weight(p, category_weight(c)) + 0);
                }
            }
        } else {
            assert(ct == prev);
            assert forall|i: int| 0 <= i < ct.len() implies units_of((#[trigger] ct[i]).1) == weight(
                s,
                category_weight(ct[i].0),
            ) by {
                assert(weight(s, category_weight(ct[i].0)) == weight(p, category_weight(ct[i].0)) + 0);
            }
            assert forall|c: Seq<char>| !has_category(ct, c) implies #[trigger] weight(s, category_weight(c)) == 0 by {
                assert(weight(s, category_weight(c)) == weight(p, category_weight(c)) + 0);
            }
        }
    }
}

/// Two breakdown entries name the same category with equal values.
pub open spec fn same_entry(x: CategorySummary, y: CategorySummary) -> bool {
    x.category@ == y.category@ && x.amount.units() == y.amount.units()
}

/// Some entry of `v` names the category of `x` with the same value.
pub open spec fn has_same_entry(x: CategorySummary, v: Seq<CategorySummary>) -> bool {
    exists|j: int| 0 <= j < v.len() && #[trigger] same_entry(x, v[j])
}

/// 10^n is positive.
pub(crate) proof fn lemma_pow10_positive(n: nat)
    ensures
        pow10(n) > 0,
    decreases n,
{
    if n > 0 {
        lemma_pow10_positive((n - 1) as nat);
    }
}

/// An amount is zero exactly when its value is.
proof fn lemma_zero_units(a: Amount)
    ensures
        (a.m() == 0) <==> (a.units() == 0),
{
    let q = pow10((28 - a.s()) as nat);
    lemma_pow10_positive((28 - a.s()) as nat);
    assert(a.m() != 0 ==> a.m() * q != 0) by (nonlinear_arith)
        requires
            q > 0,
    ;
}

/// Entry `i` of `a`'s breakdown has an entry of `b`'s breakdown with the
/// same category and value, where `b` reports the same transactions in
/// another order.
proof fn lemma_entry_found(txs: Seq<Transaction>, p: Seq<Transaction>, a: Report, b: Report, i: int)
    requires
        txs.to_multiset() == p.to_multiset(),
        amounts_valid(txs),
        amounts_valid(p),
        no_rounding(txs),
        no_rounding(p),
        is_report_of(a, txs),
        is_report_of(b, p),
        0 <= i < a.category_breakdown@.len(),
    ensures
        has_same_entry(a.category_breakdown@[i], b.category_breakdown@),
{
    broadcast use vstd::seq_lib::group_to_multiset_ensures;

    lemma_expenses_match(txs, p, a, b);
    lemma_zero_units(a.total_expenses);
    lemma_zero_units(b.total_expenses);
    assert(a.total_expenses.m() != 0);
    lemma_category_weights(txs);
    lemma_category_weights(p);
    law_breakdown_categories(txs, a);
    law_breakdown_categories(p, b);
    let va = breakdown_view(a.category_breakdown@);
    let vb = breakdown_view(b.category_breakdown@);
    let ca = category_totals(txs).unwrap();
    let cb = category_totals(p).unwrap();
    let e = va[i];
    let name = e.0;
    assert(va.contains(e));
    assert(va.to_multiset().count(e) > 0);
    assert(ca.contains(e));
    let ka = choose|k: int| 0 <= k < ca.len() && ca[k] == e;
    assert(units_of(ca[ka].1) == weight(txs, category_weight(ca[ka].0)));
    lemma_weight_permutation(txs, p, category_weight(name));
    assert(is_expense_category(txs, va[i].0));
    let m = choose|m: int| 0 <= m < txs.len() && is_recorded_expense(#[trigger] txs[m]) && txs[m].category@ == name;
    assert(txs.contains(txs[m]));
    assert(p.to_multiset().count(txs[m]) > 0);
    assert(p.contains(txs[m]));
    let m2 = choose|k: int| 0 <= k < p.len() && p[k] == txs[m];
    assert(is_recorded_expense(p[m2]));
    assert(has_category(vb, p[m2].category@));
    let j = choose|j: int| 0 <= j < vb.len() && (#[trigger] vb[j]).0 == name;
    assert(vb.contains(vb[j]));
    assert(vb.to_multiset().count(vb[j]) > 0);
    assert(cb.contains(vb[j]));
    let kb = choose|k: int| 0 <= k < cb.len() && cb[k] == vb[j];
    assert(units_of(cb[kb].1) == weight(p, category_weight(cb[kb].0)));
    assert(same_entry(a.category_breakdown@[i], b.category_breakdown@[j]));
}

/// The reports of the same transactions in two orders have total expenses
/// of the same value.
proof fn lemma_expenses_match(txs: Seq<Transaction>, p: Seq<Transaction>, a: Report, b: Report)
    requires
        txs.to_multiset() == p.to_multiset(),
        amounts_valid(txs),
        amounts_valid(p),
        no_rounding(txs),
        no_rounding(p),
        is_report_of(a, txs),
        is_report_of(b, p),
    ensures
        a.total_expenses.units() == b.total_expenses.units(),
{
    law_report_sums(txs, a);
    law_report_sums(p, b);
    lemma_units_sum_weight(txs, TransactionType::Expense);
    lemma_units_sum_weight(p, TransactionType::Expense);
    lemma_weight_permutation(txs, p, kind_weight(TransactionType::Expense));
}

/// The reports of the same transactions in two orders have total incomes
/// and balances of the same value.
proof fn lemma_income_match(txs: Seq<Transaction>, p: Seq<Transaction>, a: Report, b: Report)
    requires
        txs.to_multiset() == p.to_multiset(),
        amounts_valid(txs),
        amounts_valid(p),
        no_rounding(txs),
        no_rounding(p),
        is_report_of(a, txs),
        is_report_of(b, p),
    ensures
        a.total_income.units() == b.total_income.units(),
        a.balance.units() == b.balance.units(),
{
    law_report_sums(txs, a);
    law_report_sums(p, b);
    lemma_expenses_match(txs, p, a, b);
    lemma_units_sum_weight(txs, TransactionType::Income);
    lemma_units_sum_weight(p, TransactionType::Income);
    lemma_weight_permutation(txs, p, kind_weight(TransactionType::Income));
}

/// The same transactions in two orders have the same recorded transactions,
/// as a multiset.
proof fn lemma_recorded_match(txs: Seq<Transaction>, p: Seq<Transaction>)
    requires
        txs.to_multiset() == p.to_multiset(),
    ensures
        recorded(txs).to_multiset() == recorded(p).to_multiset(),
        recorded(txs).len() == recorded(p).len(),
{
    broadcast use vstd::seq_lib::group_to_multiset_ensures;

    lemma_recorded_count(txs);
    lemma_recorded_count(p);
    assert(recorded(txs).to_multiset() =~= recorded(p).to_multiset());
    assert(recorded(txs).to_multiset().len() == recorded(txs).len());
    assert(recorded(p).to_multiset().len() == recorded(p).len());
}

/// Where no sum needs rounding in either order, the report of the same
/// transactions in another order has totals, balance and count of the same
/// value, rows that show the same recorded transactions, and a breakdown
/// that gives each category the same value.
pub proof fn law_order_ignored(txs: Seq<Transaction>, p: Seq<Transaction>, a: Report, b: Report)
    requires
        txs.to_multiset() == p.to_multiset(),
        amounts_valid(txs),
        amounts_valid(p),
        no_rounding(txs),
        no_rounding(p),
        is_report_of(a, txs),
        is_report_of(b, p),
    ensures
        a.total_income.units() == b.total_income.units(),
        a.total_expenses.units() == b.total_expenses.units(),
        a.balance.units() == b.balance.units(),
        a.transaction_count == b.transaction_count,
        recorded(txs).to_multiset() == recorded(p).to_multiset(),
        forall|i: int|
            0 <= i < a.category_breakdown@.len() ==> has_same_entry(
                #[trigger] a.category_breakdown@[i],
                b.category_breakdown@,
            ),
        forall|j: int|
            0 <= j < b.category_breakdown@.len() ==> has_same_entry(
                #[trigger] b.category_breakdown@[j],
                a.category_breakdown@,
            ),
{
    lemma_income_match(txs, p, a, b);
    lemma_expenses_match(txs, p, a, b);
    lemma_recorded_match(txs, p);
    assert forall|i: int| 0 <= i < a.category_breakdown@.len() implies has_same_entry(
        #[trigger] a.category_breakdown@[i],
        b.category_breakdown@,
    ) by {
        lemma_entry_found(txs, p, a, b, i);
    }
    assert forall|j: int| 0 <= j < b.category_breakdown@.len() implies has_same_entry(
        #[trigger] b.category_breakdown@[j],
        a.category_breakdown@,
    ) by {
        lemma_entry_found(p, txs, b, a, j);
    }
}

/// No recorded expense has a negative amount.
pub open spec fn expenses_nonnegative(txs: Seq<Transaction>) -> bool {
    forall|i: int| 0 <= i < txs.len() && is_recorded_expense(#[trigger] txs[i]) ==> txs[i].amount.m() >= 0
}

/// With no negative expense, a category's weighted sum is between zero and
/// that of all expenses.
proof fn lemma_category_weight_bounds(s: Seq<Transaction>, c: Seq<char>)
    requires
        expenses_nonnegative(s),
    ensures
        0 <= weight(s, category_weight(c)) <= weight(s, kind_weight(TransactionType::Expense)),
    decreases s.len(),
{
    if s.len() > 0 {
        let p = s.drop_last();
        let t = s.last();
        assert(expenses_nonnegative(p)) by {
            assert forall|i: int| 0 <= i < p.len() && is_recorded_expense(#[trigger] p[i]) implies p[i].amount.m() >= 0 by {
                assert(p[i] == s[i]);
            }
        }
        lemma_category_weight_bounds(p, c);
        if is_recorded_expense(t) {
            assert(t == s[s.len() - 1]);
            let q = pow10((28 - t.amount.s()) as nat);
            lemma_pow10_positive((28 - t.amount.s()) as nat);
            assert(t.amount.m() * q >= 0) by (nonlinear_arith)
                requires
                    t.amount.m() >= 0,
                    q > 0,
            ;
        }
    }
}

/// Where no sum needs rounding and no recorded expense is negative, every
/// category total lies between zero and the total expenses.
pub proof fn lemma_categories_within_expenses(txs: Seq<Transaction>)
    requires
        amounts_valid(txs),
        no_rounding(txs),
        expenses_nonnegative(txs),
    ensures
        category_totals(txs) is Some,
        expense_total(txs) is Some,
        forall|i: int|
            0 <= i < category_totals(txs).unwrap().len() ==> 0 <= units_of(
                (#[trigger] category_totals(txs).unwrap()[i]).1,
            ) <= units_of(expense_total(txs).unwrap()),
{
    lemma_category_weights(txs);
    lemma_units_sum_weight(txs, TransactionType::Expense);
    lemma_amounts_scales(txs, TransactionType::Expense);
    lemma_total_exact(amounts_of(txs, TransactionType::Expense));
    let ct = category_totals(txs).unwrap();
    assert forall|i: int| 0 <= i < ct.len() implies 0 <= units_of((#[trigger] ct[i]).1) <= units_of(
        expense_total(txs).unwrap(),
    ) by {
        lemma_category_weight_bounds(txs, ct[i].0);
    }
}

/// Where no sum needs rounding, every sum of the report and its balance are
/// defined.
pub proof fn lemma_no_rounding_sums(txs: Seq<Transaction>)
    requires
        amounts_valid(txs),
        no_rounding(txs),
    ensures
        sums_defined(txs),
        balance_of(txs) is Some,
{
    lemma_amounts_scales(txs, TransactionType::Income);
    lemma_amounts_scales(txs, TransactionType::Expense);
    lemma_total_exact(amounts_of(txs, TransactionType::Income));
    lemma_total_exact(amounts_of(txs, TransactionType::Expense));
    lemma_category_totals_sum(txs);
}

} // verus!
