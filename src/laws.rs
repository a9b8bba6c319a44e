use vstd::prelude::*;
use crate::ledger::{
    expense_flag, first_month, has_month_id, is_first_month, listing, month_of, other_than, seeded, LedgerView,
    Month, StaticView,
};

verus! {

/// A month row is found by its identity where identities strictly increase.
proof fn lemma_month_of_at(ms: Seq<Month>, i: int)
    requires
        0 <= i < ms.len(),
        forall|a: int, b: int| 0 <= a < b < ms.len() ==> #[trigger] ms[a].id < #[trigger] ms[b].id,
    ensures
        month_of(ms, ms[i].id) == Some(ms[i]),
{
    let c = choose|k: int| 0 <= k < ms.len() && ms[k].id == ms[i].id;
    assert(0 <= c < ms.len() && ms[c].id == ms[i].id);
    if c < i {
        assert(ms[c].id < ms[i].id);
    }
    if c > i {
        assert(ms[i].id < ms[c].id);
    }
}

/// A month appended with a number not seen before is the first with it.
proof fn lemma_first_month_pushed(ms: Seq<Month>, mo: Month)
    requires
        first_month(ms, mo.month) is None,
    ensures
        first_month(ms.push(mo), mo.month) == Some(ms.len() as int),
{
    let p = ms.push(mo);
    let m = mo.month;
    assert forall|j: int| 0 <= j < ms.len() implies p[j].month != m by {
        if p[j].month == m {
            assert(ms[j].month == m);
            assert(!is_first_month(ms, m, j));
            lemma_earlier_first(ms, m, j);
        }
    }
    assert(is_first_month(p, m, ms.len() as int));
    let c = choose|k: int| is_first_month(p, m, k);
    assert(is_first_month(p, m, c));
    if c < ms.len() {
        assert(p[c].month != m);
    }
}

/// A month number that occurs at all has a first occurrence.
proof fn lemma_earlier_first(ms: Seq<Month>, m: u32, j: int)
    requires
        0 <= j < ms.len(),
        ms[j].month == m,
    ensures
        first_month(ms, m) is Some,
    decreases j,
{
    if is_first_month(ms, m, j) {
    } else {
        let k = choose|k: int| 0 <= k < j && ms[k].month == m;
        lemma_earlier_first(ms, m, k);
    }
}

/// Resolving a month keeps the store well formed and leaves the resolved
/// month among the month rows, first among those with its number.
pub proof fn resolve_keeps_wf(v: LedgerView, m: u32, y: i32)
    requires
        v.wf(),
        v.can_resolve(m),
    ensures
        v.resolved(m, y).0.wf(),
        v.resolved(m, y).1.month == m,
        first_month(v.resolved(m, y).0.months, m) matches Some(i) && v.resolved(m, y).0.months[i]
            == v.resolved(m, y).1,
{
    let (w, mo) = v.resolved(m, y);
    match first_month(v.months, m) {
        Some(i) => {
            let c = choose|k: int| is_first_month(v.months, m, k);
            assert(is_first_month(v.months, m, c));
        },
        None => {
            lemma_first_month_pushed(v.months, mo);
            assert forall|a: int| 0 <= a < w.entrys.len() implies #[trigger] w.entrys[a].id
                < w.next_entry by {
                if a >= v.entrys.len() {
                    assert(w.entrys[a] == seeded(v.statics, mo.id, v.next_entry)[a - v.entrys.len()]);
                } else {
                    assert(w.entrys[a] == v.entrys[a]);
                }
            }
            assert forall|a: int, b: int| 0 <= a < b < w.months.len() implies #[trigger] w.months[a].id
                < #[trigger] w.months[b].id by {
                if b == v.months.len() {
                    assert(w.months[a] == v.months[a]);
                }
            }
            assert forall|a: int| 0 <= a < w.entrys.len() implies has_month_id(
                w.months,
                #[trigger] w.entrys[a].month_id,
            ) by {
                if a >= v.entrys.len() {
                    assert(w.entrys[a] == seeded(v.statics, mo.id, v.next_entry)[a - v.entrys.len()]);
                    assert(w.months[v.months.len() as int] == mo);
                } else {
                    assert(w.entrys[a] == v.entrys[a]);
                    let j = choose|j: int| 0 <= j < v.months.len() && v.months[j].id == v.entrys[a].month_id;
                    assert(w.months[j] == v.months[j]);
                }
            }
        },
    }
}

/// An entry added with a positive, zero or negative amount is listed for
/// its month, with the expense flag set exactly when the amount is negative.
pub proof fn added_entry_is_listed(v: LedgerView, name: Seq<char>, amount: isize, m: u32, y: i32)
    requires
        v.wf(),
        v.can_add_entry(m, y),
    ensures
        ({
            let l = v.with_entry(name, amount, m, y).entries_for(m);
            exists|k: int|
                #![trigger l[k]]
                0 <= k < l.len() && l[k].name == name && l[k].amount == amount && l[k].is_expense
                    == expense_flag(amount)
        }),
{
    let (w, mo) = v.resolved(m, y);
    let u = v.with_entry(name, amount, m, y);
    resolve_keeps_wf(v, m, y);
    let i = first_month(w.months, m)->Some_0;
    lemma_month_of_at(w.months, i);
    assert(u.entrys.drop_last() =~= w.entrys);
    let l = listing(u.months, u.entrys, m);
    assert(l == listing(w.months, w.entrys, m).push(
        crate::ledger::joined(u.entrys.last(), mo),
    ));
    assert(u.entries_for(m) == l);
    let k = l.len() - 1;
    assert(0 <= k < l.len() && l[k].name == name && l[k].amount == amount && l[k].is_expense
        == expense_flag(amount));
}

/// A month number not seen before gets exactly one new month row, seeded
/// with one entry per static stored now, carrying its name, amount and flag;
/// no entry stored before belongs to the new month.
pub proof fn fresh_month_is_seeded(v: LedgerView, m: u32, y: i32)
    requires
        v.wf(),
        v.can_resolve(m),
        first_month(v.months, m) is None,
    ensures
        ({
            let (w, mo) = v.resolved(m, y);
            &&& w.months == v.months.push(mo)
            &&& mo.month == m && mo.year == y
            &&& w.statics == v.statics
            &&& w.entrys.len() == v.entrys.len() + v.statics.len()
            &&& w.entrys.take(v.entrys.len() as int) == v.entrys
            &&& forall|k: int| 0 <= k < v.entrys.len() ==> (#[trigger] v.entrys[k]).month_id != mo.id
            &&& forall|k: int|
                0 <= k < v.statics.len() ==> {
                    let e = #[trigger] w.entrys[v.entrys.len() + k];
                    &&& e.name == v.statics[k].name
                    &&& e.amount == v.statics[k].amount
                    &&& e.is_expense == v.statics[k].is_expense
                    &&& e.month_id == mo.id
                }
        }),
{
    let (w, mo) = v.resolved(m, y);
    assert(w.entrys.take(v.entrys.len() as int) =~= v.entrys);
    assert forall|k: int| 0 <= k < v.statics.len() implies #[trigger] w.entrys[v.entrys.len() + k]
        == seeded(v.statics, mo.id, v.next_entry)[k] by {}
    assert forall|k: int| 0 <= k < v.entrys.len() implies (#[trigger] v.entrys[k]).month_id != mo.id by {
        assert(has_month_id(v.months, v.entrys[k].month_id));
        let j = choose|j: int| 0 <= j < v.months.len() && v.months[j].id == v.entrys[k].month_id;
        assert(v.months[j].id < v.next_month);
    }
}

/// Resolving a month number a second time, with a static added in between
/// and any year, gives the same month and changes nothing: no second row,
/// no second seeding.
pub proof fn resolve_twice_is_stable(
    v: LedgerView,
    m: u32,
    y1: i32,
    y2: i32,
    name: Seq<char>,
    amount: isize,
)
    requires
        v.wf(),
        v.can_resolve(m),
    ensures
        ({
            let (w, mo) = v.resolved(m, y1);
            let x = w.with_static(name, amount);
            &&& x.can_resolve(m)
            &&& x.resolved(m, y2) == (x, mo)
            &&& w.resolved(m, y2) == (w, mo)
        }),
{
    resolve_keeps_wf(v, m, y1);
}

/// Deleting a static by identity takes every static with that identity out
/// of the statics, keeps all others, and leaves months and entries alone:
/// every month lists the same entries as before, seeded ones included.
pub proof fn delete_static_spares_entries(v: LedgerView, id: usize, m: u32)
    ensures
        ({
            let w = v.without_static(id);
            &&& forall|k: int| 0 <= k < w.statics.len() ==> #[trigger] w.statics[k].id != id
            &&& forall|k: int|
                0 <= k < v.statics.len() && v.statics[k].id != id ==> w.statics.contains(
                    #[trigger] v.statics[k],
                )
            &&& w.entrys == v.entrys
            &&& w.months == v.months
            &&& w.entries_for(m) == v.entries_for(m)
        }),
{
    let w = v.without_static(id);
    assert forall|k: int| 0 <= k < w.statics.len() implies #[trigger] w.statics[k].id != id by {
        v.statics.lemma_filter_pred(other_than(id), k);
    }
    assert forall|k: int| 0 <= k < v.statics.len() && v.statics[k].id != id implies w.statics.contains(
        #[trigger] v.statics[k],
    ) by {
        v.statics.lemma_filter_contains(other_than(id), k);
    }
}

/// Filtering keeps a sequence whose members all pass.
proof fn lemma_filter_all(s: Seq<StaticView>, id: usize)
    requires
        forall|k: int| 0 <= k < s.len() ==> #[trigger] s[k].id != id,
    ensures
        s.filter(other_than(id)) == s,
    decreases s.len(),
{
    reveal(Seq::filter);
    if s.len() > 0 {
        lemma_filter_all(s.drop_last(), id);
        assert(s.drop_last().push(s.last()) =~= s);
    }
}

/// Adding a static and deleting it by the identity it was given leaves
/// the statics as they were, so months created afterwards are seeded as
/// if it had never been added.
pub proof fn static_added_then_deleted(v: LedgerView, m: u32, y: i32, name: Seq<char>, amount: isize)
    requires
        v.wf(),
    ensures
        ({
            let w = v.with_static(name, amount).without_static(v.next_static);
            &&& w.statics == v.statics
            &&& w.resolved(m, y).0.entrys == v.resolved(m, y).0.entrys
            &&& w.resolved(m, y).1 == v.resolved(m, y).1
        }),
{
    let s = v.with_static(name, amount).statics;
    reveal(Seq::filter);
    assert(s.drop_last() =~= v.statics);
    lemma_filter_all(v.statics, v.next_static);
    assert(s.filter(other_than(v.next_static)) == v.statics);
}

} // verus!
