use vstd::prelude::*;

verus! {

/// A calendar bucket that entries belong to.
#[derive(Clone, Copy, Debug, PartialEq, Eq, Structural)]
pub struct Month {
    pub id: usize,
    pub month: u32,
    pub year: i32,
}

/// A stored entry row: it refers to its month by identity.
#[derive(Clone, Debug)]
pub struct EntryRow {
    pub id: usize,
    pub name: String,
    pub amount: isize,
    pub is_expense: u8,
    pub month_id: usize,
}

/// An entry joined with the month it belongs to, as listings return it.
#[derive(Clone, Debug)]
pub struct Entrys {
    pub id: usize,
    pub name: String,
    pub amount: isize,
    pub is_expense: u8,
    pub month: Month,
}

/// A recurring template entry, copied into every month created after it.
#[derive(Clone, Debug)]
pub struct Statics {
    pub id: usize,
    pub name: String,
    pub amount: isize,
    pub is_expense: u8,
}

/// Failures of the store's write operations.
#[derive(Clone, Copy, Debug, PartialEq, Eq, Structural)]
pub enum LedgerError {
    /// No identity is left for a row that has to be inserted.
    IdsExhausted,
    /// Loaded rows break the store's invariant (month identities not
    /// strictly increasing, an entry of no stored month, or an identity
    /// that leaves no successor).
    Inconsistent,
}

pub struct EntryView {
    pub id: usize,
    pub name: Seq<char>,
    pub amount: isize,
    pub is_expense: u8,
    pub month_id: usize,
}

pub struct EntrysView {
    pub id: usize,
    pub name: Seq<char>,
    pub amount: isize,
    pub is_expense: u8,
    pub month: Month,
}

pub struct StaticView {
    pub id: usize,
    pub name: Seq<char>,
    pub amount: isize,
    pub is_expense: u8,
}

impl View for EntryRow {
    type V = EntryView;

    open spec fn view(&self) -> EntryView {
        EntryView {
            id: self.id,
            name: self.name@,
            amount: self.amount,
            is_expense: self.is_expense,
            month_id: self.month_id,
        }
    }
}

impl View for Entrys {
    type V = EntrysView;

    open spec fn view(&self) -> EntrysView {
        EntrysView {
            id: self.id,
            name: self.name@,
            amount: self.amount,
            is_expense: self.is_expense,
            month: self.month,
        }
    }
}

impl Statics {
    /// A copy of this static.
    pub fn copy(&self) -> (r: Statics)
        ensures
            r@ == self@,
    {
        Statics { id: self.id, name: self.name.clone(), amount: self.amount, is_expense: self.is_expense }
    }
}

impl View for Statics {
    type V = StaticView;

    open spec fn view(&self) -> StaticView {
        StaticView {
            id: self.id,
            name: self.name@,
            amount: self.amount,
            is_expense: self.is_expense,
        }
    }
}

/// The abstract state of the store: the three tables and the identity
/// that each table hands out next.
pub struct LedgerView {
    pub months: Seq<Month>,
    pub entrys: Seq<EntryView>,
    pub statics: Seq<StaticView>,
    pub next_month: usize,
    pub next_entry: usize,
    pub next_static: usize,
}

/// The expense flag of an amount: set exactly for negative amounts.
pub open spec fn expense_flag(amount: isize) -> u8 {
    if amount < 0 {
        1
    } else {
        0
    }
}

pub open spec fn entry_views(s: Seq<EntryRow>) -> Seq<EntryView> {
    s.map_values(|e: EntryRow| e@)
}

pub open spec fn entrys_views(s: Seq<Entrys>) -> Seq<EntrysView> {
    s.map_values(|e: Entrys| e@)
}

pub open spec fn static_views(s: Seq<Statics>) -> Seq<StaticView> {
    s.map_values(|e: Statics| e@)
}

/// `i` is the first position of a month with month number `m`.
pub open spec fn is_first_month(ms: Seq<Month>, m: u32, i: int) -> bool {
    &&& 0 <= i < ms.len()
    &&& ms[i].month == m
    &&& forall|j: int| 0 <= j < i ==> ms[j].month != m
}

/// Where the month with number `m` is looked up: the first such row.
/// The year takes no part in the lookup.
pub open spec fn first_month(ms: Seq<Month>, m: u32) -> Option<int> {
    if exists|i: int| is_first_month(ms, m, i) {
        Some(choose|i: int| is_first_month(ms, m, i))
    } else {
        None
    }
}

/// Some month row has identity `id`.
pub open spec fn has_month_id(ms: Seq<Month>, id: usize) -> bool {
    exists|j: int| 0 <= j < ms.len() && ms[j].id == id
}

/// The month row with identity `id`, if there is one.
pub open spec fn month_of(ms: Seq<Month>, id: usize) -> Option<Month> {
    if exists|i: int| 0 <= i < ms.len() && ms[i].id == id {
        Some(ms[choose|i: int| 0 <= i < ms.len() && ms[i].id == id])
    } else {
        None
    }
}

pub open spec fn joined(e: EntryView, mo: Month) -> EntrysView {
    EntrysView { id: e.id, name: e.name, amount: e.amount, is_expense: e.is_expense, month: mo }
}

/// The entries, in stored order, whose month has month number `m`,
/// each joined with that month.
pub open spec fn listing(ms: Seq<Month>, es: Seq<EntryView>, m: u32) -> Seq<EntrysView>
    decreases es.len(),
{
    if es.len() == 0 {
        Seq::empty()
    } else {
        let prev = listing(ms, es.drop_last(), m);
        let e = es.last();
        match month_of(ms, e.month_id) {
            Some(mo) => if mo.month == m {
                prev.push(joined(e, mo))
            } else {
                prev
            },
            None => prev,
        }
    }
}

/// The entry that seeding makes of a static for month `month_id`.
pub open spec fn seed_entry(s: StaticView, month_id: usize, id: int) -> EntryView {
    EntryView {
        id: id as usize,
        name: s.name,
        amount: s.amount,
        is_expense: s.is_expense,
        month_id,
    }
}

/// One entry per static, in order, with identities from `start` on.
pub open spec fn seeded(statics: Seq<StaticView>, month_id: usize, start: usize) -> Seq<EntryView> {
    Seq::new(statics.len(), |k: int| seed_entry(statics[k], month_id, start + k))
}

/// The identity a table hands out after holding rows with `ids`: one past
/// the largest, or 1 for an empty table.
pub open spec fn next_id(ids: Seq<usize>) -> int
    decreases ids.len(),
{
    if ids.len() == 0 {
        1
    } else {
        let prev = next_id(ids.drop_last());
        if ids.last() + 1 > prev {
            ids.last() + 1
        } else {
            prev
        }
    }
}

pub open spec fn month_ids(ms: Seq<Month>) -> Seq<usize> {
    ms.map_values(|m: Month| m.id)
}

pub open spec fn entry_ids(es: Seq<EntryView>) -> Seq<usize> {
    es.map_values(|e: EntryView| e.id)
}

pub open spec fn static_ids(ss: Seq<StaticView>) -> Seq<usize> {
    ss.map_values(|s: StaticView| s.id)
}

/// Loaded rows fit the store: month identities strictly increase, every
/// entry belongs to a stored month, and no identity is the largest `usize`,
/// so each table has a next one.
pub open spec fn rows_fit(ms: Seq<Month>, es: Seq<EntryView>, ss: Seq<StaticView>) -> bool {
    &&& forall|i: int| 0 <= i < es.len() ==> has_month_id(ms, #[trigger] es[i].month_id)
    &&& forall|i: int| 0 <= i < ms.len() - 1 ==> #[trigger] ms[i].id < ms[i + 1].id
    &&& forall|i: int| 0 <= i < ms.len() ==> #[trigger] ms[i].id < usize::MAX
    &&& forall|i: int| 0 <= i < es.len() ==> #[trigger] es[i].id < usize::MAX
    &&& forall|i: int| 0 <= i < ss.len() ==> #[trigger] ss[i].id < usize::MAX
}

/// Month identities that increase from each row to the next increase
/// between any two rows.
proof fn lemma_steps_increase(ms: Seq<Month>, a: int, b: int)
    requires
        0 <= a < b < ms.len(),
        forall|i: int| 0 <= i < ms.len() - 1 ==> #[trigger] ms[i].id < ms[i + 1].id,
    ensures
        ms[a].id < ms[b].id,
    decreases b - a,
{
    assert(ms[b - 1].id < ms[b].id);
    if a < b - 1 {
        lemma_steps_increase(ms, a, b - 1);
    }
}

/// Every identity lies below the next one.
proof fn lemma_next_id_above(ids: Seq<usize>)
    ensures
        forall|i: int| 0 <= i < ids.len() ==> ids[i] < next_id(ids),
    decreases ids.len(),
{
    if ids.len() > 0 {
        lemma_next_id_above(ids.drop_last());
        assert forall|i: int| 0 <= i < ids.len() implies ids[i] < next_id(ids) by {
            if i < ids.len() - 1 {
                assert(ids.drop_last()[i] == ids[i]);
            }
        }
    }
}

/// Holds of the statics whose identity is not `id`.
pub open spec fn other_than(id: usize) -> spec_fn(StaticView) -> bool {
    |s: StaticView| s.id != id
}

impl LedgerView {
    /// Month identities strictly increase in stored order, every identity
    /// in a table lies below the one that table hands out next, and every
    /// entry belongs to a stored month.
    pub open spec fn wf(self) -> bool {
        &&& forall|i: int, j: int|
            0 <= i < j < self.months.len() ==> #[trigger] self.months[i].id
                < #[trigger] self.months[j].id
        &&& forall|i: int| 0 <= i < self.months.len() ==> #[trigger] self.months[i].id < self.next_month
        &&& forall|i: int| 0 <= i < self.entrys.len() ==> #[trigger] self.entrys[i].id < self.next_entry
        &&& forall|i: int| 0 <= i < self.statics.len() ==> #[trigger] self.statics[i].id < self.next_static
        &&& forall|i: int|
            0 <= i < self.entrys.len() ==> has_month_id(self.months, #[trigger] self.entrys[i].month_id)
    }

    /// Resolving month number `m` succeeds: it exists, or there are
    /// identities for the new month and for one entry per static.
    pub open spec fn can_resolve(self, m: u32) -> bool {
        first_month(self.months, m) is Some || (self.next_month < usize::MAX
            && self.next_entry + self.statics.len() <= usize::MAX)
    }

    /// The state after resolving (m, y), and the month resolved. A month
    /// number seen before gives its first row and changes nothing; a new
    /// one appends a month row and seeds it from the statics of now.
    pub open spec fn resolved(self, m: u32, y: i32) -> (LedgerView, Month) {
        match first_month(self.months, m) {
            Some(i) => (self, self.months[i]),
            None => {
                let mo = Month { id: self.next_month, month: m, year: y };
                (
                    LedgerView {
                        months: self.months.push(mo),
                        entrys: self.entrys + seeded(self.statics, mo.id, self.next_entry),
                        next_month: (self.next_month + 1) as usize,
                        next_entry: (self.next_entry + self.statics.len()) as usize,
                        ..self
                    },
                    mo,
                )
            },
        }
    }

    pub open spec fn can_add_entry(self, m: u32, y: i32) -> bool {
        self.can_resolve(m) && self.resolved(m, y).0.next_entry < usize::MAX
    }

    /// The state after adding an entry: the month is resolved first, then
    /// one entry is appended to it.
    pub open spec fn with_entry(self, name: Seq<char>, amount: isize, m: u32, y: i32) -> LedgerView {
        let (w, mo) = self.resolved(m, y);
        LedgerView {
            entrys: w.entrys.push(
                EntryView {
                    id: w.next_entry,
                    name,
                    amount,
                    is_expense: expense_flag(amount),
                    month_id: mo.id,
                },
            ),
            next_entry: (w.next_entry + 1) as usize,
            ..w
        }
    }

    pub open spec fn with_static(self, name: Seq<char>, amount: isize) -> LedgerView {
        LedgerView {
            statics: self.statics.push(
                StaticView { id: self.next_static, name, amount, is_expense: expense_flag(amount) },
            ),
            next_static: (self.next_static + 1) as usize,
            ..self
        }
    }

    pub open spec fn without_static(self, id: usize) -> LedgerView {
        LedgerView { statics: self.statics.filter(other_than(id)), ..self }
    }

    pub open spec fn entries_for(self, m: u32) -> Seq<EntrysView> {
        listing(self.months, self.entrys, m)
    }
}

/// The ledger store: months, entries and statics.
pub struct Database {
    months: Vec<Month>,
    entrys: Vec<EntryRow>,
    statics: Vec<Statics>,
    next_month: usize,
    next_entry: usize,
    next_static: usize,
}

impl View for Database {
    type V = LedgerView;

    closed spec fn view(&self) -> LedgerView {
        LedgerView {
            months: self.months@,
            entrys: entry_views(self.entrys@),
            statics: static_views(self.statics@),
            next_month: self.next_month,
            next_entry: self.next_entry,
            next_static: self.next_static,
        }
    }
}

impl Database {
    pub open spec fn inv(&self) -> bool {
        self@.wf()
    }

    /// An empty store.
    pub fn new() -> (r: Database)
        ensures
            r.inv(),
            r@.months.len() == 0,
            r@.entrys.len() == 0,
            r@.statics.len() == 0,
            r@.next_month == 1,
            r@.next_entry == 1,
            r@.next_static == 1,
    {
        let r = Database {
            months: Vec::new(),
            entrys: Vec::new(),
            statics: Vec::new(),
            next_month: 1,
            next_entry: 1,
            next_static: 1,
        };
        proof {
            assert(entry_views(r.entrys@) =~= Seq::empty());
            assert(static_views(r.statics@) =~= Seq::empty());
        }
        r
    }

    /// The expense flag stored for `amount`.
    pub fn is_expense(&self, amount: isize) -> (r: u8)
        ensures
            r == expense_flag(amount),
    {
        if amount < 0 {
            return 1;
        }
        0
    }

    /// Resolves month number `month`: the first month row with that number,
    /// or, where there is none, a new row for (`month`, `year`) that is at
    /// once seeded with one entry per static stored now. The year is not
    /// part of the lookup, so existing stores keep their meaning.
    pub fn create_month(&mut self, month: u32, year: i32) -> (r: Result<Month, LedgerError>)
        requires
            old(self).inv(),
        ensures
            final(self).inv(),
            old(self)@.can_resolve(month) ==> r == Ok::<Month, LedgerError>(
                old(self)@.resolved(month, year).1,
            ) && final(self)@ == old(self)@.resolved(month, year).0,
            !old(self)@.can_resolve(month) ==> r == Err::<Month, LedgerError>(
                LedgerError::IdsExhausted,
            ) && final(self)@ == old(self)@,
            r matches Ok(mo) ==> has_month_id(final(self)@.months, mo.id),
    {
        let ghost v0 = self@;
        if let Some(i) = self.find_month(month) {
            assert(self@.months[i as int].id == self.months[i as int].id);
            return Ok(self.months[i]);
        }
        if self.next_month == usize::MAX || self.statics.len() > usize::MAX - self.next_entry {
            return Err(LedgerError::IdsExhausted);
        }
        let id = self.next_month;
        let mo = Month { id, month, year };
        self.months.push(mo);
        self.next_month = id + 1;
        let start = self.next_entry;
        let ghost old_len = self.entrys@.len();
        let mut j: usize = 0;
        while j < self.statics.len()
            invariant
                j <= self.statics@.len(),
                self.statics@.len() == v0.statics.len(),
                static_views(self.statics@) == v0.statics,
                self.months@ == v0.months.push(mo),
                self.next_month == id + 1,
                id == v0.next_month,
                start == v0.next_entry,
                old_len == v0.entrys.len(),
                start + v0.statics.len() <= usize::MAX,
                self.next_entry == start + j,
                self.next_static == v0.next_static,
                entry_views(self.entrys@) == v0.entrys + seeded(v0.statics, id, start).take(j as int),
            decreases self.statics@.len() - j,
        {
            let st = &self.statics[j];
            let row = EntryRow {
                id: self.next_entry,
                name: st.name.clone(),
                amount: st.amount,
                is_expense: st.is_expense,
                month_id: id,
            };
            let ghost before = self.entrys@;
            self.entrys.push(row);
            proof {
                assert(v0.statics[j as int] == self.statics@[j as int]@);
                assert(seeded(v0.statics, id, start).take(j + 1) =~= seeded(v0.statics, id, start).take(
                    j as int,
                ).push(row@));
                assert(entry_views(self.entrys@) =~= entry_views(before).push(row@));
            }
            self.next_entry = self.next_entry + 1;
            j = j + 1;
        }
        proof {
            assert(seeded(v0.statics, id, start).take(j as int) =~= seeded(v0.statics, id, start));
            let v = self@;
            assert forall|a: int| 0 <= a < v.entrys.len() implies #[trigger] v.entrys[a].id
                < v.next_entry by {
                if a >= v0.entrys.len() {
                    assert(v.entrys[a] == seeded(v0.statics, id, start)[a - v0.entrys.len()]);
                } else {
                    assert(v.entrys[a] == v0.entrys[a]);
                }
            }
            assert(v.months[v.months.len() - 1] == mo);
            assert forall|a: int| 0 <= a < v.entrys.len() implies has_month_id(
                v.months,
                #[trigger] v.entrys[a].month_id,
            ) by {
                if a >= v0.entrys.len() {
                    assert(v.entrys[a] == seeded(v0.statics, id, start)[a - v0.entrys.len()]);
                    assert(v.months[v.months.len() - 1].id == id);
                } else {
                    assert(v.entrys[a] == v0.entrys[a]);
                    let j = choose|j: int| 0 <= j < v0.months.len() && v0.months[j].id == v0.entrys[a].month_id;
                    assert(v.months[j] == v0.months[j]);
                }
            }
        }
        Ok(mo)
    }

    /// Adds an entry named `name` with `amount` to month (`month`, `year`),
    /// resolving that month first; the expense flag comes from the sign.
    pub fn new_entry(&mut self, name: &str, amount: isize, month: u32, year: i32) -> (r: Result<
        (),
        LedgerError,
    >)
        requires
            old(self).inv(),
        ensures
            final(self).inv(),
            r is Ok <==> old(self)@.can_add_entry(month, year),
            r is Ok ==> final(self)@ == old(self)@.with_entry(name@, amount, month, year),
            r is Err ==> r == Err::<(), LedgerError>(LedgerError::IdsExhausted),
            r is Err ==> final(self)@ == old(self)@ || final(self)@ == old(self)@.resolved(
                month,
                year,
            ).0,
    {
        let mo = match self.create_month(month, year) {
            Ok(mo) => mo,
            Err(e) => {
                return Err(e);
            },
        };
        let ghost mid = self@;
        let ghost ms = mid.months;
        if self.next_entry == usize::MAX {
            return Err(LedgerError::IdsExhausted);
        }
        let row = EntryRow {
            id: self.next_entry,
            name: name.to_owned(),
            amount,
            is_expense: self.is_expense(amount),
            month_id: mo.id,
        };
        let ghost before = self.entrys@;
        self.entrys.push(row);
        self.next_entry = self.next_entry + 1;
        proof {
            assert(entry_views(self.entrys@) =~= entry_views(before).push(row@));
            let v = self@;
            assert forall|a: int| 0 <= a < v.entrys.len() implies #[trigger] v.entrys[a].id
                < v.next_entry by {
                if a < v.entrys.len() - 1 {
                    assert(v.entrys[a] == entry_views(before)[a]);
                }
            }
            assert forall|a: int| 0 <= a < v.entrys.len() implies has_month_id(
                v.months,
                #[trigger] v.entrys[a].month_id,
            ) by {
                assert(v.months == ms);
                if a < v.entrys.len() - 1 {
                    assert(mid.wf());
                    assert(mid.entrys == entry_views(before));
                    assert(v.entrys[a] == mid.entrys[a]);
                    assert(has_month_id(ms, mid.entrys[a].month_id));
                } else {
                    assert(v.entrys[a] == row@);
                    assert(has_month_id(ms, mo.id));
                }
            }
        }
        Ok(())
    }

    /// Adds a static named `name` with `amount`. Months that exist already
    /// are not touched.
    pub fn new_static(&mut self, name: &str, amount: isize) -> (r: Result<(), LedgerError>)
        requires
            old(self).inv(),
        ensures
            final(self).inv(),
            r is Ok <==> old(self)@.next_static < usize::MAX,
            r is Ok ==> final(self)@ == old(self)@.with_static(name@, amount),
            r is Err ==> r == Err::<(), LedgerError>(LedgerError::IdsExhausted) && final(self)@
                == old(self)@,
    {
        let ghost v0 = self@;
        if self.next_static == usize::MAX {
            return Err(LedgerError::IdsExhausted);
        }
        let row = Statics {
            id: self.next_static,
            name: name.to_owned(),
            amount,
            is_expense: self.is_expense(amount),
        };
        let ghost before = self.statics@;
        self.statics.push(row);
        self.next_static = self.next_static + 1;
        proof {
            assert(static_views(self.statics@) =~= static_views(before).push(row@));
            let v = self@;
            assert forall|a: int| 0 <= a < v.statics.len() implies #[trigger] v.statics[a].id
                < v.next_static by {
                if a < v.statics.len() - 1 {
                    assert(v.statics[a] == v0.statics[a]);
                }
            }
            assert(v.months == v0.months);
            assert(v.entrys == v0.entrys);
        }
        Ok(())
    }

    /// Removes every static with identity `id`. Entries seeded from it
    /// stay where they are.
    pub fn delete_static(&mut self, id: usize)
        requires
            old(self).inv(),
        ensures
            final(self).inv(),
            final(self)@ == old(self)@.without_static(id),
    {
        let ghost v0 = self@;
        let mut kept: Vec<Statics> = Vec::new();
        let mut i: usize = 0;
        while i < self.statics.len()
            invariant
                i <= self.statics@.len(),
                static_views(self.statics@) == v0.statics,
                static_views(kept@) == v0.statics.take(i as int).filter(other_than(id)),
            decreases self.statics@.len() - i,
        {
            let ghost before = kept@;
            proof {
                let t = v0.statics.take(i + 1);
                reveal(Seq::filter);
                assert(t.drop_last() =~= v0.statics.take(i as int));
                assert(t.last() == v0.statics[i as int]);
                assert(v0.statics[i as int] == self.statics@[i as int]@);
                assert(t.filter(other_than(id)) == if other_than(id)(t.last()) {
                    t.drop_last().filter(other_than(id)).push(t.last())
                } else {
                    t.drop_last().filter(other_than(id))
                });
            }
            if self.statics[i].id != id {
                kept.push(self.statics[i].copy());
                proof {
                    assert(static_views(kept@) =~= static_views(before).push(self.statics@[i as int]@));
                }
            }
            i = i + 1;
        }
        proof {
            assert(v0.statics.take(i as int) =~= v0.statics);
        }
        self.statics = kept;
        proof {
            let v = self@;
            assert(v.statics == v0.statics.filter(other_than(id)));
            assert forall|a: int| 0 <= a < v.statics.len() implies #[trigger] v.statics[a].id
                < v.next_static by {
                assert(v0.statics.filter(other_than(id)).contains(v.statics[a]));
                v0.statics.lemma_filter_contains_rev(other_than(id), v.statics[a]);
            }
            assert(v =~= v0.without_static(id));
        }
    }

    /// Every static, in stored order.
    pub fn get_statics(&self) -> (r: Vec<Statics>)
        ensures
            static_views(r@) == self@.statics,
    {
        let mut r: Vec<Statics> = Vec::new();
        let mut i: usize = 0;
        while i < self.statics.len()
            invariant
                i <= self.statics@.len(),
                static_views(r@) == self@.statics.take(i as int),
            decreases self.statics@.len() - i,
        {
            let ghost before = r@;
            r.push(self.statics[i].copy());
            proof {
                assert(static_views(r@) =~= static_views(before).push(self.statics@[i as int]@));
                assert(self@.statics.take(i + 1) =~= self@.statics.take(i as int).push(
                    self.statics@[i as int]@,
                ));
            }
            i = i + 1;
        }
        proof {
            assert(self@.statics.take(i as int) =~= self@.statics);
        }
        r
    }

    /// The month row with identity `id`.
    fn month_by_id(&self, id: usize) -> (r: Option<Month>)
        requires
            self.inv(),
        ensures
            r == month_of(self@.months, id),
    {
        let mut i: usize = 0;
        while i < self.months.len()
            invariant
                i <= self.months@.len(),
                self.inv(),
                forall|j: int| 0 <= j < i ==> self.months@[j].id != id,
            decreases self.months@.len() - i,
        {
            if self.months[i].id == id {
                proof {
                    let ms = self@.months;
                    let c = choose|k: int| 0 <= k < ms.len() && ms[k].id == id;
                    assert(0 <= c < ms.len() && ms[c].id == id);
                    if c < i {
                        assert(ms[c].id != id);
                    }
                    if c > i {
                        assert(ms[i as int].id < ms[c].id);
                    }
                }
                return Some(self.months[i]);
            }
            i = i + 1;
        }
        None
    }

    /// The entries whose month has month number `month`, each joined with
    /// its month, in stored order. The year does not narrow the listing:
    /// months are keyed by their number, so March of every year is one month.
    pub fn get_entrys(&self, month: u32, year: i32) -> (r: Vec<Entrys>)
        requires
            self.inv(),
        ensures
            entrys_views(r@) == self@.entries_for(month),
    {
        let ghost es = self@.entrys;
        let mut out: Vec<Entrys> = Vec::new();
        let mut i: usize = 0;
        while i < self.entrys.len()
            invariant
                i <= self.entrys@.len(),
                self.inv(),
                es == self@.entrys,
                entrys_views(out@) == listing(self@.months, es.take(i as int), month),
            decreases self.entrys@.len() - i,
        {
            let e = &self.entrys[i];
            let ghost before = out@;
            proof {
                assert(es.take(i + 1).drop_last() =~= es.take(i as int));
                assert(es.take(i + 1).last() == e@);
            }
            if let Some(mo) = self.month_by_id(e.month_id) {
                if mo.month == month {
                    let j = Entrys {
                        id: e.id,
                        name: e.name.clone(),
                        amount: e.amount,
                        is_expense: e.is_expense,
                        month: mo,
                    };
                    out.push(j);
                    proof {
                        assert(entrys_views(out@) =~= entrys_views(before).push(j@));
                    }
                }
            }
            i = i + 1;
        }
        proof {
            assert(es.take(i as int) =~= es);
        }
        out
    }

    /// One past the largest month identity, where identities strictly
    /// increase and none is the largest `usize`.
    fn scan_months(months: &Vec<Month>) -> (r: Option<usize>)
        ensures
            r is Some <==> (forall|i: int| 0 <= i < months@.len() - 1 ==> #[trigger] months@[i].id
                < months@[i + 1].id) && (forall|i: int| 0 <= i < months@.len() ==> #[trigger] months@[i].id
                < usize::MAX),
            r matches Some(n) ==> n == next_id(month_ids(months@)),
    {
        let ghost ms = months@;
        let mut next: usize = 1;
        let mut i: usize = 0;
        while i < months.len()
            invariant
                i <= ms.len(),
                ms == months@,
                forall|a: int| 0 <= a < i - 1 ==> #[trigger] ms[a].id < ms[a + 1].id,
                forall|a: int| 0 <= a < i ==> #[trigger] ms[a].id < usize::MAX,
                next == next_id(month_ids(ms).take(i as int)),
            decreases ms.len() - i,
        {
            let id = months[i].id;
            if id == usize::MAX {
                assert(ms[i as int].id == usize::MAX);
                return None;
            }
            if i > 0 && months[i - 1].id >= id {
                assert(ms[i - 1].id >= ms[(i - 1) + 1].id);
                return None;
            }
            proof {
                assert(month_ids(ms).take(i + 1).drop_last() =~= month_ids(ms).take(i as int));
            }
            if id + 1 > next {
                next = id + 1;
            }
            i = i + 1;
        }
        proof {
            assert(month_ids(ms).take(ms.len() as int) =~= month_ids(ms));
        }
        Some(next)
    }

    /// One past the largest entry identity, where none is the largest `usize`.
    fn scan_entrys(entrys: &Vec<EntryRow>) -> (r: Option<usize>)
        ensures
            r is Some <==> forall|i: int| 0 <= i < entrys@.len() ==> #[trigger] entry_views(entrys@)[i].id < usize::MAX,
            r matches Some(n) ==> n == next_id(entry_ids(entry_views(entrys@))),
    {
        let ghost es = entry_views(entrys@);
        let mut next: usize = 1;
        let mut i: usize = 0;
        while i < entrys.len()
            invariant
                i <= es.len(),
                es == entry_views(entrys@),
                forall|a: int| 0 <= a < i ==> #[trigger] es[a].id < usize::MAX,
                next == next_id(entry_ids(es).take(i as int)),
            decreases es.len() - i,
        {
            let id = entrys[i].id;
            assert(es[i as int].id == id);
            if id == usize::MAX {
                return None;
            }
            proof {
                assert(entry_ids(es).take(i + 1).drop_last() =~= entry_ids(es).take(i as int));
            }
            if id + 1 > next {
                next = id + 1;
            }
            i = i + 1;
        }
        proof {
            assert(entry_ids(es).take(es.len() as int) =~= entry_ids(es));
        }
        Some(next)
    }

    /// One past the largest static identity, where none is the largest `usize`.
    fn scan_statics(statics: &Vec<Statics>) -> (r: Option<usize>)
        ensures
            r is Some <==> forall|i: int| 0 <= i < statics@.len() ==> #[trigger] static_views(statics@)[i].id < usize::MAX,
            r matches Some(n) ==> n == next_id(static_ids(static_views(statics@))),
    {
        let ghost ss = static_views(statics@);
        let mut next: usize = 1;
        let mut i: usize = 0;
        while i < statics.len()
            invariant
                i <= ss.len(),
                ss == static_views(statics@),
                forall|a: int| 0 <= a < i ==> #[trigger] ss[a].id < usize::MAX,
                next == next_id(static_ids(ss).take(i as int)),
            decreases ss.len() - i,
        {
            let id = statics[i].id;
            assert(ss[i as int].id == id);
            if id == usize::MAX {
                return None;
            }
            proof {
                assert(static_ids(ss).take(i + 1).drop_last() =~= static_ids(ss).take(i as int));
            }
            if id + 1 > next {
                next = id + 1;
            }
            i = i + 1;
        }
        proof {
            assert(static_ids(ss).take(ss.len() as int) =~= static_ids(ss));
        }
        Some(next)
    }

    /// Some month of `months` has identity `id`.
    fn has_month(months: &Vec<Month>, id: usize) -> (r: bool)
        ensures
            r == has_month_id(months@, id),
    {
        let mut i: usize = 0;
        while i < months.len()
            invariant
                i <= months@.len(),
                forall|j: int| 0 <= j < i ==> months@[j].id != id,
            decreases months@.len() - i,
        {
            if months[i].id == id {
                return true;
            }
            i = i + 1;
        }
        false
    }

    /// Every entry of `entrys` belongs to a month of `months`.
    fn scan_references(months: &Vec<Month>, entrys: &Vec<EntryRow>) -> (r: bool)
        ensures
            r == forall|i: int|
                0 <= i < entrys@.len() ==> has_month_id(months@, #[trigger] entry_views(entrys@)[i].month_id),
    {
        let ghost es = entry_views(entrys@);
        let mut i: usize = 0;
        while i < entrys.len()
            invariant
                i <= es.len(),
                es == entry_views(entrys@),
                forall|a: int| 0 <= a < i ==> has_month_id(months@, #[trigger] es[a].month_id),
            decreases es.len() - i,
        {
            assert(es[i as int].month_id == entrys[i as int].month_id);
            if !Self::has_month(months, entrys[i].month_id) {
                return false;
            }
            i = i + 1;
        }
        true
    }

    /// A store over rows read back from storage. Each table hands out one
    /// past its largest identity next.
    #[verifier::rlimit(60)]
    pub fn from_rows(months: Vec<Month>, entrys: Vec<EntryRow>, statics: Vec<Statics>) -> (r: Result<
        Database,
        LedgerError,
    >)
        ensures
            r is Ok <==> rows_fit(months@, entry_views(entrys@), static_views(statics@)),
            r is Err ==> r == Err::<Database, LedgerError>(LedgerError::Inconsistent),
            r matches Ok(db) ==> db.inv() && db@ == (LedgerView {
                months: months@,
                entrys: entry_views(entrys@),
                statics: static_views(statics@),
                next_month: next_id(month_ids(months@)) as usize,
                next_entry: next_id(entry_ids(entry_views(entrys@))) as usize,
                next_static: next_id(static_ids(static_views(statics@))) as usize,
            }),
    {
        let ghost ms = months@;
        let ghost es = entry_views(entrys@);
        let ghost ss = static_views(statics@);
        let sm = Self::scan_months(&months);
        let se = Self::scan_entrys(&entrys);
        let st = Self::scan_statics(&statics);
        if !Self::scan_references(&months, &entrys) {
            return Err(LedgerError::Inconsistent);
        }
        match (sm, se, st) {
            (Some(next_month), Some(next_entry), Some(next_static)) => {
                let db = Database { months, entrys, statics, next_month, next_entry, next_static };
                proof {
                    lemma_next_id_above(month_ids(ms));
                    lemma_next_id_above(entry_ids(es));
                    lemma_next_id_above(static_ids(ss));
                    assert forall|a: int, b: int| 0 <= a < b < ms.len() implies #[trigger] ms[a].id
                        < #[trigger] ms[b].id by {
                        lemma_steps_increase(ms, a, b);
                    }
                    assert forall|a: int| 0 <= a < ms.len() implies #[trigger] ms[a].id < next_month by {
                        assert(month_ids(ms)[a] == ms[a].id);
                    }
                    assert forall|a: int| 0 <= a < es.len() implies #[trigger] es[a].id < next_entry by {
                        assert(entry_ids(es)[a] == es[a].id);
                    }
                    assert forall|a: int| 0 <= a < ss.len() implies #[trigger] ss[a].id < next_static by {
                        assert(static_ids(ss)[a] == ss[a].id);
                    }
                }
                Ok(db)
            },
            _ => Err(LedgerError::Inconsistent),
        }
    }

    /// The month rows, in stored order.
    pub fn month_rows(&self) -> (r: Vec<Month>)
        ensures
            r@ == self@.months,
    {
        let mut r: Vec<Month> = Vec::new();
        let mut i: usize = 0;
        while i < self.months.len()
            invariant
                i <= self.months@.len(),
                r@ == self.months@.take(i as int),
            decreases self.months@.len() - i,
        {
            r.push(self.months[i]);
            proof {
                assert(r@ =~= self.months@.take(i + 1));
            }
            i = i + 1;
        }
        proof {
            assert(r@ =~= self.months@);
        }
        r
    }

    /// The entry rows, in stored order.
    pub fn entry_rows(&self) -> (r: Vec<EntryRow>)
        ensures
            entry_views(r@) == self@.entrys,
    {
        let mut r: Vec<EntryRow> = Vec::new();
        let mut i: usize = 0;
        while i < self.entrys.len()
            invariant
                i <= self.entrys@.len(),
                entry_views(r@) == self@.entrys.take(i as int),
            decreases self.entrys@.len() - i,
        {
            let e = &self.entrys[i];
            let row = EntryRow {
                id: e.id,
                name: e.name.clone(),
                amount: e.amount,
                is_expense: e.is_expense,
                month_id: e.month_id,
            };
            let ghost before = r@;
            r.push(row);
            proof {
                assert(entry_views(r@) =~= entry_views(before).push(row@));
                assert(self@.entrys.take(i + 1) =~= self@.entrys.take(i as int).push(row@));
            }
            i = i + 1;
        }
        proof {
            assert(self@.entrys.take(i as int) =~= self@.entrys);
        }
        r
    }

    /// Position of the first month row with month number `month`.
    fn find_month(&self, month: u32) -> (r: Option<usize>)
        ensures
            match r {
                Some(i) => first_month(self@.months, month) == Some(i as int),
                None => first_month(self@.months, month) is None,
            },
    {
        let mut i: usize = 0;
        while i < self.months.len()
            invariant
                i <= self.months@.len(),
                forall|j: int| 0 <= j < i ==> self.months@[j].month != month,
            decreases self.months@.len() - i,
        {
            if self.months[i].month == month {
                proof {
                    let ms = self@.months;
                    assert(is_first_month(ms, month, i as int));
                    let c = choose|k: int| is_first_month(ms, month, k);
                    assert(is_first_month(ms, month, c));
                    if c < i {
                        assert(ms[c].month != month);
                    }
                    if c > i {
                        assert(ms[i as int].month != month);
                    }
                }
                return Some(i);
            }
            i = i + 1;
        }
        proof {
            let ms = self@.months;
            assert forall|k: int| !is_first_month(ms, month, k) by {
                if 0 <= k < ms.len() {
                    assert(ms[k].month != month);
                }
            }
        }
        None
    }
}

} // verus!
