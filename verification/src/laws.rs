//! Laws of the report: what holds of every report where no sum needs
//! rounding.

use vstd::prelude::*;
use crate::amount::{
    aligned, difference_is_exact, exact_difference, exact_sum, max, pow10, sum_is_exact,
    units_of, valid_parts,
};
use crate::date::{date_text, valid_ymd};
use crate::kinds::TransactionType;
use crate::text::{digit_char, digits, zero_pad_left};
use crate::models::Transaction;
use crate::report::{
    amounts_of, category_index, category_totals, expense_total, income_total,
    is_report_of, sum_units, total, breakdown_view, CategoryTotal, Report,
};

verus! {

/// 10^(a + b) = 10^a * 10^b.
pub proof fn lemma_pow10_add(a: nat, b: nat)
    ensures
        pow10(a + b) == pow10(a) * pow10(b),
    decreases a,
{
    if a == 0 {
        assert(pow10(0) == 1);
        assert(a + b == b);
    } else {
        lemma_pow10_add((a - 1) as nat, b);
        assert(pow10(a) == 10 * pow10((a - 1) as nat));
        assert(((a + b) - 1) as nat == ((a - 1) as nat + b) as nat);
        assert(pow10(a + b) == 10 * pow10(((a + b) - 1) as nat));
        assert(10 * (pow10((a - 1) as nat) * pow10(b)) == (10 * pow10((a - 1) as nat)) * pow10(b))
            by (nonlinear_arith);
    }
}

/// A mantissa written at a larger scale keeps its value.
pub proof fn lemma_aligned_units(d: (int, int), s: int)
    requires
        0 <= d.1 <= s <= 28,
    ensures
        aligned(d, s) * pow10((28 - s) as nat) == units_of(d),
{
    lemma_pow10_add((s - d.1) as nat, (28 - s) as nat);
    let p = pow10((s - d.1) as nat);
    let q = pow10((28 - s) as nat);
    assert((d.0 * p) * q == d.0 * (p * q)) by (nonlinear_arith);
    assert(((s - d.1) as nat + (28 - s) as nat) as nat == (28 - d.1) as nat);
}

/// The exact sum has the value of the sum of the values.
pub proof fn lemma_exact_sum_units(a: (int, int), b: (int, int))
    requires
        0 <= a.1 <= 28,
        0 <= b.1 <= 28,
    ensures
        units_of(exact_sum(a, b)) == units_of(a) + units_of(b),
        0 <= exact_sum(a, b).1 <= 28,
{
    if a.0 == 0 {
        assert(units_of(a) == 0);
    } else if b.0 == 0 {
        assert(units_of(b) == 0);
    } else {
        let s = max(a.1, b.1);
        lemma_aligned_units(a, s);
        lemma_aligned_units(b, s);
        let q = pow10((28 - s) as nat);
        assert((aligned(a, s) + aligned(b, s)) * q == aligned(a, s) * q + aligned(b, s) * q)
            by (nonlinear_arith);
    }
}

/// The exact difference has the value of the difference of the values.
pub proof fn lemma_exact_difference_units(a: (int, int), b: (int, int))
    requires
        0 <= a.1 <= 28,
        0 <= b.1 <= 28,
    ensures
        units_of(exact_difference(a, b)) == units_of(a) - units_of(b),
{
    if a.0 == 0 {
        assert(units_of(a) == 0);
        assert(units_of((-b.0, b.1)) == -units_of(b)) by (nonlinear_arith);
    } else if b.0 == 0 {
        assert(units_of(b) == 0);
    } else {
        let s = max(a.1, b.1);
        lemma_aligned_units(a, s);
        lemma_aligned_units(b, s);
        let q = pow10((28 - s) as nat);
        assert((aligned(a, s) - aligned(b, s)) * q == aligned(a, s) * q - aligned(b, s) * q)
            by (nonlinear_arith);
    }
}

/// The sum of the values of amounts, in units of 10^-28.
pub open spec fn units_sum(s: Seq<(int, int)>) -> int
    decreases s.len(),
{
    if s.len() == 0 {
        0
    } else {
        units_sum(s.drop_last()) + units_of(s.last())
    }
}

/// Whether every addition of the running total needs no rounding.
pub open spec fn total_exact(s: Seq<(int, int)>) -> bool
    decreases s.len(),
{
    if s.len() == 0 {
        true
    } else {
        total_exact(s.drop_last()) && match total(s.drop_last()) {
            Some(x) => sum_is_exact(x, s.last()),
            None => false,
        }
    }
}

/// Scales of the amounts are in range.
pub open spec fn scales_in_range(s: Seq<(int, int)>) -> bool {
    forall|i: int| 0 <= i < s.len() ==> 0 <= (#[trigger] s[i]).1 <= 28
}

/// A running total that needs no rounding is the exact sum of the values.
pub proof fn lemma_total_exact(s: Seq<(int, int)>)
    requires
        total_exact(s),
        scales_in_range(s),
    ensures
        total(s) is Some,
        units_of(total(s).unwrap()) == units_sum(s),
        0 <= total(s).unwrap().1 <= 28,
    decreases s.len(),
{
    if s.len() > 0 {
        let p = s.drop_last();
        assert(scales_in_range(p)) by {
            assert forall|i: int| 0 <= i < p.len() implies 0 <= (#[trigger] p[i]).1 <= 28 by {
                assert(p[i] == s[i]);
            }
        }
        lemma_total_exact(p);
        assert(0 <= s.last().1 <= 28) by {
            assert(s.last() == s[s.len() - 1]);
        }
        lemma_exact_sum_units(total(p).unwrap(), s.last());
    }
}

/// Every amount of the transactions is one that `rust_decimal` can hold
/// (always so for amounts built by this library).
pub open spec fn amounts_valid(txs: Seq<Transaction>) -> bool {
    forall|i: int| 0 <= i < txs.len() ==> valid_parts((#[trigger] txs[i]).amount.m(), txs[i].amount.s())
}

/// Whether every addition into a category total needs no rounding.
pub open spec fn categories_exact(txs: Seq<Transaction>) -> bool
    decreases txs.len(),
{
    if txs.len() == 0 {
        true
    } else {
        categories_exact(txs.drop_last()) && match category_totals(txs.drop_last()) {
            None => false,
            Some(prev) => {
                let t = txs.last();
                if t.id is Some && t.tx_type == TransactionType::Expense {
                    let k = category_index(prev, t.category@);
                    if k < 0 {
                        sum_is_exact((0, 0), t.amount.pair())
                    } else {
                        sum_is_exact(prev[k].1, t.amount.pair())
                    }
                } else {
                    true
                }
            },
        }
    }
}

/// Whether no sum of the report of `txs` needs rounding: the running totals
/// of incomes, of expenses and of each category, and the balance.
pub open spec fn no_rounding(txs: Seq<Transaction>) -> bool {
    &&& total_exact(amounts_of(txs, TransactionType::Income))
    &&& total_exact(amounts_of(txs, TransactionType::Expense))
    &&& categories_exact(txs)
    &&& difference_is_exact(income_total(txs).unwrap(), expense_total(txs).unwrap())
}

/// Dropping the last transaction keeps the amounts valid.
pub(crate) proof fn lemma_amounts_valid_drop_last(txs: Seq<Transaction>)
    requires
        txs.len() > 0,
        amounts_valid(txs),
    ensures
        amounts_valid(txs.drop_last()),
        valid_parts(txs.last().amount.m(), txs.last().amount.s()),
{
    let p = txs.drop_last();
    assert forall|i: int| 0 <= i < p.len() implies valid_parts((#[trigger] p[i]).amount.m(), p[i].amount.s()) by {
        assert(p[i] == txs[i]);
    }
    assert(txs.last() == txs[txs.len() - 1]);
}

/// The amounts of one kind have scales in range.
pub(crate) proof fn lemma_amounts_scales(txs: Seq<Transaction>, kind: TransactionType)
    requires
        amounts_valid(txs),
    ensures
        scales_in_range(amounts_of(txs, kind)),
    decreases txs.len(),
{
    if txs.len() > 0 {
        lemma_amounts_valid_drop_last(txs);
        lemma_amounts_scales(txs.drop_last(), kind);
        let p = amounts_of(txs.drop_last(), kind);
        let a = amounts_of(txs, kind);
        assert forall|i: int| 0 <= i < a.len() implies 0 <= (#[trigger] a[i]).1 <= 28 by {
            if i < p.len() {
                assert(a[i] == p[i]);
            }
        }
    }
}

/// Replacing one entry changes the sum by the difference of the two values.
proof fn lemma_sum_units_update(s: Seq<CategoryTotal>, k: int, v: CategoryTotal)
    requires
        0 <= k < s.len(),
    ensures
        sum_units(s.update(k, v)) == sum_units(s) - units_of(s[k].1) + units_of(v.1),
    decreases s.len(),
{
    let u = s.update(k, v);
    if k == s.len() - 1 {
        assert(u.drop_last() =~= s.drop_last());
    } else {
        lemma_sum_units_update(s.drop_last(), k, v);
        assert(u.drop_last() =~= s.drop_last().update(k, v));
    }
}

/// Where every addition is exact, the category totals add up to the total of
/// the expenses, and their scales stay in range.
pub proof fn lemma_category_totals_sum(txs: Seq<Transaction>)
    requires
        amounts_valid(txs),
        categories_exact(txs),
    ensures
        category_totals(txs) is Some,
        sum_units(category_totals(txs).unwrap()) == units_sum(amounts_of(txs, TransactionType::Expense)),
        forall|i: int|
            0 <= i < category_totals(txs).unwrap().len() ==> 0 <= (#[trigger] category_totals(
                txs,
            ).unwrap()[i]).1 .1 <= 28,
    decreases txs.len(),
{
    if txs.len() > 0 {
        let p = txs.drop_last();
        lemma_amounts_valid_drop_last(txs);
        lemma_category_totals_sum(p);
        let prev = category_totals(p).unwrap();
        let t = txs.last();
        let ap = amounts_of(p, TransactionType::Expense);
        if t.id is Some && t.tx_type == TransactionType::Expense {
            assert(amounts_of(txs, TransactionType::Expense) == ap.push(t.amount.pair()));
            assert(ap.push(t.amount.pair()).drop_last() =~= ap);
            let k = category_index(prev, t.category@);
            crate::report::lemma_category_index(prev, t.category@);
            if k < 0 {
                lemma_exact_sum_units((0, 0), t.amount.pair());
                let x = exact_sum((0, 0), t.amount.pair());
                let cur = prev.push((t.category@, x));
                assert(cur.drop_last() =~= prev);
                assert forall|i: int| 0 <= i < cur.len() implies 0 <= (#[trigger] cur[i]).1 .1 <= 28 by {
                    if i < prev.len() {
                        assert(cur[i] == prev[i]);
                    }
                }
            } else {
                assert(0 <= prev[k].1 .1 <= 28);
                lemma_exact_sum_units(prev[k].1, t.amount.pair());
                let x = exact_sum(prev[k].1, t.amount.pair());
                lemma_sum_units_update(prev, k, (t.category@, x));
                let cur = prev.update(k, (t.category@, x));
                assert forall|i: int| 0 <= i < cur.len() implies 0 <= (#[trigger] cur[i]).1 .1 <= 28 by {
                    if i != k {
                        assert(cur[i] == prev[i]);
                    }
                }
            }
        } else {
            assert(amounts_of(txs, TransactionType::Expense) == ap);
        }
    }
}

/// Sequences with the same multiset of entries have the same sum.
pub proof fn lemma_sum_units_permutation(a: Seq<CategoryTotal>, b: Seq<CategoryTotal>)
    requires
        a.to_multiset() == b.to_multiset(),
    ensures
        sum_units(a) == sum_units(b),
    decreases a.len(),
{
    broadcast use vstd::seq_lib::group_to_multiset_ensures;
    broadcast use vstd::multiset::group_multiset_axioms;

    if a.len() == 0 {
        assert(a.to_multiset().len() == a.len());
        assert(b.to_multiset().len() == b.len());
        assert(b.len() == 0);
    } else {
        let x = a.last();
        let p = a.drop_last();
        assert(a =~= p.push(x));
        assert(a.to_multiset() =~= p.to_multiset().insert(x));
        assert(b.to_multiset().count(x) > 0);
        assert(b.contains(x));
        let k = choose|k: int| 0 <= k < b.len() && b[k] == x;
        let q = b.remove(k);
        assert(q.to_multiset() =~= b.to_multiset().remove(x));
        assert(p.to_multiset() =~= a.to_multiset().remove(x));
        lemma_sum_units_permutation(p, q);
        crate::report::lemma_insert_entry(q, k, x);
        assert(q.insert(k, x) =~= b);
    }
}

/// Where no sum needs rounding, the report's totals are the exact sums of
/// the recorded incomes and expenses, the balance is income minus expenses,
/// and the category breakdown adds up to the total expenses.
pub proof fn law_report_sums(txs: Seq<Transaction>, r: Report)
    requires
        amounts_valid(txs),
        is_report_of(r, txs),
        no_rounding(txs),
    ensures
        r.total_income.units() == units_sum(amounts_of(txs, TransactionType::Income)),
        r.total_expenses.units() == units_sum(amounts_of(txs, TransactionType::Expense)),
        r.balance.units() == r.total_income.units() - r.total_expenses.units(),
        sum_units(breakdown_view(r.category_breakdown@)) == r.total_expenses.units(),
{
    lemma_amounts_scales(txs, TransactionType::Income);
    lemma_amounts_scales(txs, TransactionType::Expense);
    lemma_total_exact(amounts_of(txs, TransactionType::Income));
    lemma_total_exact(amounts_of(txs, TransactionType::Expense));
    lemma_exact_difference_units(income_total(txs).unwrap(), expense_total(txs).unwrap());
    lemma_category_totals_sum(txs);
    if r.total_expenses.m() == 0 {
        assert(breakdown_view(r.category_breakdown@) =~= Seq::<CategoryTotal>::empty());
        assert(r.total_expenses.units() == 0);
    } else {
        lemma_sum_units_permutation(breakdown_view(r.category_breakdown@), category_totals(txs).unwrap());
    }
}

/// No two entries name the same category.
pub open spec fn distinct_categories(c: Seq<CategoryTotal>) -> bool {
    forall|i: int, j: int| 0 <= i < j < c.len() ==> (#[trigger] c[i]).0 != (#[trigger] c[j]).0
}

/// A transaction that carries an id and is an expense.
pub open spec fn is_recorded_expense(t: Transaction) -> bool {
    t.id is Some && t.tx_type == TransactionType::Expense
}

/// Some recorded expense has category `name`.
pub open spec fn is_expense_category(txs: Seq<Transaction>, name: Seq<char>) -> bool {
    exists|k: int| 0 <= k < txs.len() && is_recorded_expense(#[trigger] txs[k]) && txs[k].category@ == name
}

/// Some entry is named `name`.
pub open spec fn has_category(c: Seq<CategoryTotal>, name: Seq<char>) -> bool {
    exists|i: int| 0 <= i < c.len() && (#[trigger] c[i]).0 == name
}

/// Every entry names the category of a recorded expense.
pub open spec fn names_are_expense_categories(txs: Seq<Transaction>, c: Seq<CategoryTotal>) -> bool {
    forall|i: int| 0 <= i < c.len() ==> is_expense_category(txs, (#[trigger] c[i]).0)
}

/// The category of every recorded expense has an entry.
pub open spec fn expense_categories_are_named(txs: Seq<Transaction>, c: Seq<CategoryTotal>) -> bool {
    forall|k: int| 0 <= k < txs.len() && is_recorded_expense(#[trigger] txs[k]) ==> has_category(c, txs[k].category@)
}

/// The category totals name each category of the recorded expenses once,
/// and no other.
pub proof fn lemma_category_totals_names(txs: Seq<Transaction>)
    requires
        category_totals(txs) is Some,
    ensures
        distinct_categories(category_totals(txs).unwrap()),
        names_are_expense_categories(txs, category_totals(txs).unwrap()),
        expense_categories_are_named(txs, category_totals(txs).unwrap()),
    decreases txs.len(),
{
    if txs.len() > 0 {
        let p = txs.drop_last();
        let n = txs.len() - 1;
        lemma_category_totals_names(p);
        let prev = category_totals(p).unwrap();
        let c = category_totals(txs).unwrap();
        let t = txs.last();
        assert(t == txs[n]);
        assert forall|k: int| 0 <= k < n implies #[trigger] txs[k] == p[k] by {}
        if is_recorded_expense(t) {
            let idx = category_index(prev, t.category@);
            crate::report::lemma_category_index(prev, t.category@);
            if idx < 0 {
                let x = c.last();
                assert(c =~= prev.push(x));
                assert(x.0 == t.category@);
                assert forall|i: int, j: int| 0 <= i < j < c.len() implies (#[trigger] c[i]).0 != (#[trigger] c[j]).0 by {
                    if j < prev.len() {
                        assert(c[i] == prev[i] && c[j] == prev[j]);
                    } else {
                        assert(c[i] == prev[i]);
                        assert(prev[i].0 != t.category@);
                    }
                }
                assert forall|i: int| 0 <= i < c.len() implies exists|k: int|
                    0 <= k < txs.len() && is_recorded_expense(#[trigger] txs[k]) && txs[k].category@ == (
                    #[trigger] c[i]).0 by {
                    if i < prev.len() {
                        assert(c[i] == prev[i]);
                        let k = choose|k: int|
                            0 <= k < p.len() && is_recorded_expense(#[trigger] p[k]) && p[k].category@ == prev[i].0;
                        assert(txs[k] == p[k]);
                    } else {
                        assert(is_recorded_expense(txs[n]));
                    }
                }
                assert forall|k: int| 0 <= k < txs.len() && is_recorded_expense(#[trigger] txs[k]) implies exists|
                    i: int,
                | 0 <= i < c.len() && (#[trigger] c[i]).0 == txs[k].category@ by {
                    if k < n {
                        assert(txs[k] == p[k]);
                        let i = choose|i: int| 0 <= i < prev.len() && (#[trigger] prev[i]).0 == p[k].category@;
                        assert(c[i] == prev[i]);
                    } else {
                        assert(c[c.len() - 1].0 == txs[k].category@);
                    }
                }
            } else {
                let x = c[idx];
                assert(c =~= prev.update(idx, x));
                assert(x.0 == prev[idx].0);
                assert forall|i: int| 0 <= i < c.len() implies (#[trigger] c[i]).0 == prev[i].0 by {}
                assert forall|i: int| 0 <= i < c.len() implies exists|k: int|
                    0 <= k < txs.len() && is_recorded_expense(#[trigger] txs[k]) && txs[k].category@ == (
                    #[trigger] c[i]).0 by {
                    let k = choose|k: int|
                        0 <= k < p.len() && is_recorded_expense(#[trigger] p[k]) && p[k].category@ == prev[i].0;
                    assert(txs[k] == p[k]);
                    assert(c[i].0 == prev[i].0);
                }
                assert forall|k: int| 0 <= k < txs.len() && is_recorded_expense(#[trigger] txs[k]) implies exists|
                    i: int,
                | 0 <= i < c.len() && (#[trigger] c[i]).0 == txs[k].category@ by {
                    if k < n {
                        assert(txs[k] == p[k]);
                        let i = choose|i: int| 0 <= i < prev.len() && (#[trigger] prev[i]).0 == p[k].category@;
                        assert(c[i].0 == prev[i].0);
                    } else {
                        assert(c[idx].0 == txs[k].category@);
                    }
                }
            }
        } else {
            assert(c == prev);
            assert forall|i: int| 0 <= i < c.len() implies exists|k: int|
                0 <= k < txs.len() && is_recorded_expense(#[trigger] txs[k]) && txs[k].category@ == (
                #[trigger] c[i]).0 by {
                let k = choose|k: int|
                    0 <= k < p.len() && is_recorded_expense(#[trigger] p[k]) && p[k].category@ == prev[i].0;
                assert(txs[k] == p[k]);
            }
            assert forall|k: int| 0 <= k < txs.len() && is_recorded_expense(#[trigger] txs[k]) implies exists|
                i: int,
            | 0 <= i < c.len() && (#[trigger] c[i]).0 == txs[k].category@ by {
                if k < n {
                    assert(txs[k] == p[k]);
                }
            }
        }
    }
}

/// Sequences with the same multiset hold the same elements.
proof fn lemma_same_elements(a: Seq<CategoryTotal>, b: Seq<CategoryTotal>)
    requires
        a.to_multiset() == b.to_multiset(),
    ensures
        forall|i: int| 0 <= i < a.len() ==> b.contains(#[trigger] a[i]),
{
    broadcast use vstd::seq_lib::group_to_multiset_ensures;

    assert forall|i: int| 0 <= i < a.len() implies b.contains(#[trigger] a[i]) by {
        assert(a.contains(a[i]));
        assert(a.to_multiset().count(a[i]) > 0);
        assert(b.to_multiset().count(a[i]) > 0);
    }
}

/// A sequence with the multiset of a sequence without duplicates has none.
proof fn lemma_no_duplicates_transfer(a: Seq<CategoryTotal>, b: Seq<CategoryTotal>)
    requires
        a.to_multiset() == b.to_multiset(),
        a.no_duplicates(),
    ensures
        b.no_duplicates(),
{
    a.lemma_multiset_has_no_duplicates();
    b.lemma_multiset_has_no_duplicates_conv();
}

/// An ordering of entries with distinct names has distinct names.
proof fn lemma_reordered_distinct(c: Seq<CategoryTotal>, b: Seq<CategoryTotal>)
    requires
        b.to_multiset() == c.to_multiset(),
        distinct_categories(c),
    ensures
        distinct_categories(b),
{
    assert(c.no_duplicates()) by {
        assert forall|i: int, j: int| 0 <= i < c.len() && 0 <= j < c.len() && i != j implies c[i] != c[j] by {
            if i < j {
                assert(c[i].0 != c[j].0);
            } else {
                assert(c[j].0 != c[i].0);
            }
        }
    }
    lemma_no_duplicates_transfer(c, b);
    lemma_same_elements(b, c);
    assert forall|i: int, j: int| 0 <= i < j < b.len() implies (#[trigger] b[i]).0 != (#[trigger] b[j]).0 by {
        assert(c.contains(b[i]));
        assert(c.contains(b[j]));
        let i2 = choose|x: int| 0 <= x < c.len() && c[x] == b[i];
        let j2 = choose|x: int| 0 <= x < c.len() && c[x] == b[j];
        assert(b[i] != b[j]);
        if i2 < j2 {
            assert(c[i2].0 != c[j2].0);
        } else if j2 < i2 {
            assert(c[j2].0 != c[i2].0);
        }
    }
}

/// An ordering of entries that name expense categories names them too.
proof fn lemma_reordered_names_from(txs: Seq<Transaction>, c: Seq<CategoryTotal>, b: Seq<CategoryTotal>)
    requires
        b.to_multiset() == c.to_multiset(),
        names_are_expense_categories(txs, c),
    ensures
        names_are_expense_categories(txs, b),
{
    lemma_same_elements(b, c);
    assert forall|i: int| 0 <= i < b.len() implies exists|k: int|
        0 <= k < txs.len() && is_recorded_expense(#[trigger] txs[k]) && txs[k].category@ == (#[trigger] b[i]).0 by {
        assert(c.contains(b[i]));
        let j = choose|x: int| 0 <= x < c.len() && c[x] == b[i];
        assert(c[j] == b[i]);
        let k = choose|k: int|
            0 <= k < txs.len() && is_recorded_expense(#[trigger] txs[k]) && txs[k].category@ == (#[trigger] c[j]).0;
        assert(txs[k].category@ == b[i].0);
    }
}

/// An ordering of entries that name every expense category names them all.
proof fn lemma_reordered_names_all(txs: Seq<Transaction>, c: Seq<CategoryTotal>, b: Seq<CategoryTotal>)
    requires
        b.to_multiset() == c.to_multiset(),
        expense_categories_are_named(txs, c),
    ensures
        expense_categories_are_named(txs, b),
{
    lemma_same_elements(c, b);
    assert forall|k: int| 0 <= k < txs.len() && is_recorded_expense(#[trigger] txs[k]) implies exists|i: int|
        0 <= i < b.len() && (#[trigger] b[i]).0 == txs[k].category@ by {
        let j = choose|x: int| 0 <= x < c.len() && (#[trigger] c[x]).0 == txs[k].category@;
        assert(b.contains(c[j]));
        let i = choose|x: int| 0 <= x < b.len() && b[x] == c[j];
        assert(b[i] == c[j]);
    }
}

/// Where the expenses are not zero, the breakdown names each category of
/// the recorded expenses exactly once, and no other category.
pub proof fn law_breakdown_categories(txs: Seq<Transaction>, r: Report)
    requires
        category_totals(txs) is Some,
        is_report_of(r, txs),
        r.total_expenses.m() != 0,
    ensures
        distinct_categories(breakdown_view(r.category_breakdown@)),
        names_are_expense_categories(txs, breakdown_view(r.category_breakdown@)),
        expense_categories_are_named(txs, breakdown_view(r.category_breakdown@)),
{
    lemma_category_totals_names(txs);
    let c = category_totals(txs).unwrap();
    let b = breakdown_view(r.category_breakdown@);
    lemma_reordered_distinct(c, b);
    lemma_reordered_names_from(txs, c, b);
    lemma_reordered_names_all(txs, c, b);
}

/// Text order, as SQLite compares text: character by character, a proper
/// prefix first.
pub open spec fn text_less(a: Seq<char>, b: Seq<char>) -> bool
    decreases a.len(),
{
    if a.len() == 0 {
        b.len() > 0
    } else if b.len() == 0 {
        false
    } else if a[0] != b[0] {
        (a[0] as int) < (b[0] as int)
    } else {
        text_less(a.drop_first(), b.drop_first())
    }
}

/// Whether date (y1, m1, d1) comes before date (y2, m2, d2).
pub open spec fn date_before(y1: int, m1: int, d1: int, y2: int, m2: int, d2: int) -> bool {
    y1 < y2 || (y1 == y2 && (m1 < m2 || (m1 == m2 && d1 < d2)))
}

/// The four digits of a year from 0 to 9999.
pub(crate) proof fn lemma_four_digits(y: int)
    requires
        0 <= y <= 9999,
    ensures
        zero_pad_left(digits(y as nat), 4) == seq![
            digit_char(y / 1000),
            digit_char((y / 100) % 10),
            digit_char((y / 10) % 10),
            digit_char(y % 10),
        ],
{
    reveal_with_fuel(digits, 5);
    let a = y / 1000;
    let b = (y / 100) % 10;
    let c = (y / 10) % 10;
    let e = y % 10;
    assert((y / 10) / 10 == y / 100);
    assert((y / 100) / 10 == y / 1000);
    assert(y / 1000 / 10 == 0);
    let d1 = digits((y / 1000) as nat);
    let d2 = digits((y / 100) as nat);
    let d3 = digits((y / 10) as nat);
    let d4 = digits(y as nat);
    assert(y > 0 ==> d4 == d3.push(digit_char(e)));
    assert(y / 10 > 0 ==> d3 == d2.push(digit_char(c)));
    assert(y / 100 > 0 ==> d2 == d1.push(digit_char(b)));
    assert(y / 1000 > 0 ==> d1 == seq![digit_char(a)]);
    assert(zero_pad_left(d4, 4) =~= seq![digit_char(a), digit_char(b), digit_char(c), digit_char(e)]);
}

/// A digit's character has the code of `0` plus the digit.
proof fn lemma_digit_char_code(d: int)
    requires
        0 <= d <= 9,
    ensures
        digit_char(d) as int == 48 + d,
{
}

/// Lexicographic order of integer sequences, a proper prefix first.
pub open spec fn lex_less(a: Seq<int>, b: Seq<int>) -> bool
    decreases a.len(),
{
    if a.len() == 0 {
        b.len() > 0
    } else if b.len() == 0 {
        false
    } else if a[0] != b[0] {
        a[0] < b[0]
    } else {
        lex_less(a.drop_first(), b.drop_first())
    }
}

/// Texts whose character codes are `48 +` the integers compare as the
/// integers do.
proof fn lemma_text_less_codes(t1: Seq<char>, t2: Seq<char>, a: Seq<int>, b: Seq<int>)
    requires
        t1.len() == a.len(),
        t2.len() == b.len(),
        forall|i: int| 0 <= i < a.len() ==> (#[trigger] t1[i]) as int == 48 + a[i],
        forall|i: int| 0 <= i < b.len() ==> (#[trigger] t2[i]) as int == 48 + b[i],
    ensures
        text_less(t1, t2) == lex_less(a, b),
    decreases a.len(),
{
    if a.len() > 0 && b.len() > 0 {
        assert(t1[0] as int == 48 + a[0]);
        assert(t2[0] as int == 48 + b[0]);
        assert((t1[0] == t2[0]) == (a[0] == b[0]));
        lemma_text_less_codes(t1.drop_first(), t2.drop_first(), a.drop_first(), b.drop_first());
    }
}

/// Comparing concatenations with equally long fronts compares the fronts,
/// then the rests.
proof fn lemma_lex_append(x: Seq<int>, y: Seq<int>, u: Seq<int>, v: Seq<int>)
    requires
        x.len() == u.len(),
    ensures
        lex_less(x + y, u + v) == (lex_less(x, u) || (x == u && lex_less(y, v))),
    decreases x.len(),
{
    if x.len() == 0 {
        assert(x + y =~= y);
        assert(u + v =~= v);
        assert(x =~= u);
    } else {
        assert((x + y).drop_first() =~= x.drop_first() + y);
        assert((u + v).drop_first() =~= u.drop_first() + v);
        lemma_lex_append(x.drop_first(), y, u.drop_first(), v);
        if x[0] == u[0] {
            assert((x.drop_first() == u.drop_first()) == (x == u)) by {
                if x.drop_first() == u.drop_first() {
                    assert forall|i: int| 0 <= i < x.len() implies x[i] == u[i] by {
                        if i > 0 {
                            assert(x[i] == x.drop_first()[i - 1]);
                            assert(u[i] == u.drop_first()[i - 1]);
                        }
                    }
                    assert(x =~= u);
                }
            }
        } else {
            assert(x != u);
        }
    }
}

/// Four decimal digits compare as the number they write.
proof fn lemma_lex_four_digits(p: Seq<int>, q: Seq<int>)
    requires
        p.len() == 4,
        q.len() == 4,
        forall|i: int| 0 <= i < 4 ==> 0 <= #[trigger] p[i] <= 9,
        forall|i: int| 0 <= i < 4 ==> 0 <= #[trigger] q[i] <= 9,
    ensures
        lex_less(p, q) == (1000 * p[0] + 100 * p[1] + 10 * p[2] + p[3] < 1000 * q[0] + 100 * q[1] + 10 * q[2]
            + q[3]),
        (p == q) == (1000 * p[0] + 100 * p[1] + 10 * p[2] + p[3] == 1000 * q[0] + 100 * q[1] + 10 * q[2] + q[3]),
{
    reveal_with_fuel(lex_less, 5);
    assert(p[0] >= 0 && p[0] <= 9 && p[1] >= 0 && p[1] <= 9 && p[2] >= 0 && p[2] <= 9 && p[3] >= 0 && p[3] <= 9);
    assert(q[0] >= 0 && q[0] <= 9 && q[1] >= 0 && q[1] <= 9 && q[2] >= 0 && q[2] <= 9 && q[3] >= 0 && q[3] <= 9);
    let p1 = p.drop_first();
    let q1 = q.drop_first();
    let p2 = p1.drop_first();
    let q2 = q1.drop_first();
    let p3 = p2.drop_first();
    let q3 = q2.drop_first();
    assert(p1[0] == p[1] && p2[0] == p[2] && p3[0] == p[3]);
    assert(q1[0] == q[1] && q2[0] == q[2] && q3[0] == q[3]);
    assert(p3.drop_first().len() == 0 && q3.drop_first().len() == 0);
    if p[0] == q[0] && p[1] == q[1] && p[2] == q[2] && p[3] == q[3] {
        assert(p =~= q);
    }
}

/// Two decimal digits compare as the number they write.
proof fn lemma_lex_two_digits(p: Seq<int>, q: Seq<int>)
    requires
        p.len() == 2,
        q.len() == 2,
        0 <= p[0] <= 9,
        0 <= p[1] <= 9,
        0 <= q[0] <= 9,
        0 <= q[1] <= 9,
    ensures
        lex_less(p, q) == (10 * p[0] + p[1] < 10 * q[0] + q[1]),
        (p == q) == (10 * p[0] + p[1] == 10 * q[0] + q[1]),
{
    reveal_with_fuel(lex_less, 3);
    let p1 = p.drop_first();
    let q1 = q.drop_first();
    assert(p1[0] == p[1] && q1[0] == q[1]);
    assert(p1.drop_first().len() == 0 && q1.drop_first().len() == 0);
    if p[0] == q[0] && p[1] == q[1] {
        assert(p =~= q);
    }
}

/// The digits of a date's text, with -3 (the code of `-` less 48) between
/// year, month and day.
pub open spec fn date_digits(y: int, m: int, d: int) -> Seq<int> {
    seq![y / 1000, (y / 100) % 10, (y / 10) % 10, y % 10] + seq![-3int] + seq![m / 10, m % 10] + seq![-3int] + seq![
        d / 10,
        d % 10,
    ]
}

/// The text of a date of year 0 to 9999 has the codes of its digits.
proof fn lemma_date_text_codes(y: int, m: int, d: int)
    requires
        valid_ymd(y, m, d),
        0 <= y <= 9999,
    ensures
        date_text(y, m, d).len() == 10,
        forall|i: int| 0 <= i < 10 ==> (#[trigger] date_text(y, m, d)[i]) as int == 48 + date_digits(y, m, d)[i],
{
    lemma_four_digits(y);
    let t = date_text(y, m, d);
    let a = date_digits(y, m, d);
    lemma_digit_char_code(y / 1000);
    lemma_digit_char_code((y / 100) % 10);
    lemma_digit_char_code((y / 10) % 10);
    lemma_digit_char_code(y % 10);
    lemma_digit_char_code(m / 10);
    lemma_digit_char_code(m % 10);
    lemma_digit_char_code(d / 10);
    lemma_digit_char_code(d % 10);
    assert(t.len() == 10);
    assert forall|i: int| 0 <= i < 10 implies (#[trigger] t[i]) as int == 48 + a[i] by {
        assert(('-' as int) == 45);
    }
}

/// A common first element leaves the comparison to the rests.
proof fn lemma_lex_same_first(x: Seq<int>, y: Seq<int>, v: Seq<int>)
    requires
        x.len() == 1,
    ensures
        lex_less(x + y, x + v) == lex_less(y, v),
{
    lemma_lex_append(x, y, x, v);
    reveal_with_fuel(lex_less, 2);
    assert(x.drop_first().len() == 0);
}

/// The four digits of a year from 0 to 9999 write the year.
proof fn lemma_year_digit_values(y: int)
    requires
        0 <= y <= 9999,
    ensures
        y == 1000 * (y / 1000) + 100 * ((y / 100) % 10) + 10 * ((y / 10) % 10) + y % 10,
        0 <= y / 1000 <= 9,
{
    vstd::arithmetic::div_mod::lemma_fundamental_div_mod(y, 10);
    vstd::arithmetic::div_mod::lemma_fundamental_div_mod(y / 10, 10);
    vstd::arithmetic::div_mod::lemma_fundamental_div_mod(y / 100, 10);
    vstd::arithmetic::div_mod::lemma_div_denominator(y, 10, 10);
    vstd::arithmetic::div_mod::lemma_div_denominator(y, 100, 10);
    assert(10 * (10 * (10 * (y / 1000) + (y / 100) % 10) + (y / 10) % 10) + y % 10 == 1000 * (y / 1000) + 100 * ((
    y / 100) % 10) + 10 * ((y / 10) % 10) + y % 10);
}

/// The two digits of a number below 100 write the number.
proof fn lemma_two_digit_values(n: int)
    requires
        0 <= n <= 99,
    ensures
        n == 10 * (n / 10) + n % 10,
        0 <= n / 10 <= 9,
{
}

/// The digit sequences of two dates compare as the dates do.
proof fn lemma_date_digits_order(y1: int, m1: int, d1: int, y2: int, m2: int, d2: int)
    requires
        0 <= y1 <= 9999,
        0 <= y2 <= 9999,
        1 <= m1 <= 12,
        1 <= m2 <= 12,
        1 <= d1 <= 31,
        1 <= d2 <= 31,
    ensures
        lex_less(date_digits(y1, m1, d1), date_digits(y2, m2, d2)) == date_before(y1, m1, d1, y2, m2, d2),
{
    let ya = seq![y1 / 1000, (y1 / 100) % 10, (y1 / 10) % 10, y1 % 10];
    let yb = seq![y2 / 1000, (y2 / 100) % 10, (y2 / 10) % 10, y2 % 10];
    let ma = seq![m1 / 10, m1 % 10];
    let mb = seq![m2 / 10, m2 % 10];
    let da = seq![d1 / 10, d1 % 10];
    let db = seq![d2 / 10, d2 % 10];
    let dash = seq![-3int];
    let ra = dash + (ma + (dash + da));
    let rb = dash + (mb + (dash + db));
    assert(date_digits(y1, m1, d1) =~= ya + ra);
    assert(date_digits(y2, m2, d2) =~= yb + rb);
    lemma_year_digit_values(y1);
    lemma_year_digit_values(y2);
    lemma_two_digit_values(m1);
    lemma_two_digit_values(m2);
    lemma_two_digit_values(d1);
    lemma_two_digit_values(d2);
    lemma_lex_append(ya, ra, yb, rb);
    lemma_lex_same_first(dash, ma + (dash + da), mb + (dash + db));
    lemma_lex_append(ma, dash + da, mb, dash + db);
    lemma_lex_same_first(dash, da, db);
    lemma_lex_four_digits(ya, yb);
    lemma_lex_two_digits(ma, mb);
    lemma_lex_two_digits(da, db);
}

/// For years 0 to 9999, the `YYYY-MM-DD` texts of two dates compare as the
/// dates do: the query's text comparisons select a date range.
pub proof fn law_date_text_order(y1: int, m1: int, d1: int, y2: int, m2: int, d2: int)
    requires
        valid_ymd(y1, m1, d1),
        valid_ymd(y2, m2, d2),
        0 <= y1 <= 9999,
        0 <= y2 <= 9999,
    ensures
        text_less(date_text(y1, m1, d1), date_text(y2, m2, d2)) <==> date_before(y1, m1, d1, y2, m2, d2),
{
    lemma_date_text_codes(y1, m1, d1);
    lemma_date_text_codes(y2, m2, d2);
    lemma_text_less_codes(
        date_text(y1, m1, d1),
        date_text(y2, m2, d2),
        date_digits(y1, m1, d1),
        date_digits(y2, m2, d2),
    );
    lemma_date_digits_order(y1, m1, d1, y2, m2, d2);
}

} // verus!
