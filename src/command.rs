use vstd::prelude::*;
use crate::ledger::{Database, LedgerError, LedgerView};
use crate::present::{display_month, MonthView};

verus! {

/// The parsed command line.
pub struct LineupArgs {
    pub action: Action,
}

/// The verbs of the command line.
pub enum Action {
    Add(AddCommand),
    Show(ShowCommand),
    DeleteStatic(DeleteStatic),
    ShowStatics,
}

/// `add entry ...` or `add static ...`.
pub struct AddCommand {
    pub add_type: AddType,
}

pub enum AddType {
    Entry(NewEntry),
    Static(NewStatic),
}

/// An entry to add; a month or year of 0 stands for the current one.
pub struct NewEntry {
    pub name: String,
    pub amount: isize,
    pub month: u32,
    pub year: i32,
}

/// A static to add.
pub struct NewStatic {
    pub name: String,
    pub amount: isize,
}

/// The month to show; a month or year of 0 stands for the current one.
pub struct ShowCommand {
    pub month: u32,
    pub year: i32,
}

/// The identity of the static to delete.
pub struct DeleteStatic {
    pub id: usize,
}

/// A given month or year, where 0 stands for the current one.
pub open spec fn or_current<T>(given: T, zero: T, current: T) -> T {
    if given == zero {
        current
    } else {
        given
    }
}

/// The month and year meant by `month` and `year` on day `today`: each
/// that is 0 is taken from `today`, independently of the other.
pub fn resolve_date(month: u32, year: i32, today: (u32, i32)) -> (r: (u32, i32))
    ensures
        r == (or_current(month, 0u32, today.0), or_current(year, 0i32, today.1)),
{
    let m = if month == 0 {
        today.0
    } else {
        month
    };
    let y = if year == 0 {
        today.1
    } else {
        year
    };
    (m, y)
}

/// The state after `add` on day `today`, where it succeeds.
pub open spec fn added(v: LedgerView, add_type: AddType, today: (u32, i32)) -> LedgerView {
    match add_type {
        AddType::Entry(e) => v.with_entry(
            e.name@,
            e.amount,
            or_current(e.month, 0u32, today.0),
            or_current(e.year, 0i32, today.1),
        ),
        AddType::Static(s) => v.with_static(s.name@, s.amount),
    }
}

/// The state that `add` leaves when it fails after resolving the month.
pub open spec fn resolved_for(v: LedgerView, add_type: AddType, today: (u32, i32)) -> LedgerView {
    match add_type {
        AddType::Entry(e) => v.resolved(
            or_current(e.month, 0u32, today.0),
            or_current(e.year, 0i32, today.1),
        ).0,
        AddType::Static(_) => v,
    }
}

/// Whether `add` succeeds on day `today`.
pub open spec fn can_add(v: LedgerView, add_type: AddType, today: (u32, i32)) -> bool {
    match add_type {
        AddType::Entry(e) => v.can_add_entry(
            or_current(e.month, 0u32, today.0),
            or_current(e.year, 0i32, today.1),
        ),
        AddType::Static(_) => v.next_static < usize::MAX,
    }
}

/// Adds the entry or static of `add_type`, a month or year of 0 being taken
/// from `today`.
pub fn add(add_type: &AddType, data: &mut Database, today: (u32, i32)) -> (r: Result<
    (),
    LedgerError,
>)
    requires
        old(data).inv(),
    ensures
        final(data).inv(),
        r is Ok <==> can_add(old(data)@, *add_type, today),
        r is Ok ==> final(data)@ == added(old(data)@, *add_type, today),
        r is Err ==> r == Err::<(), LedgerError>(LedgerError::IdsExhausted),
        r is Err ==> final(data)@ == old(data)@ || final(data)@ == resolved_for(
            old(data)@,
            *add_type,
            today,
        ),
{
    match add_type {
        AddType::Entry(new_entry) => {
            let (m, y) = resolve_date(new_entry.month, new_entry.year, today);
            data.new_entry(new_entry.name.as_str(), new_entry.amount, m, y)
        },
        AddType::Static(new_static) => data.new_static(new_static.name.as_str(), new_static.amount),
    }
}

/// The month view of (`month`, `year`), a 0 being taken from `today`.
pub fn show(month: u32, year: i32, data: &Database, today: (u32, i32)) -> (r: MonthView)
    requires
        data.inv(),
    ensures
        r.renders(data@.entries_for(or_current(month, 0u32, today.0))),
{
    let (m, y) = resolve_date(month, year, today);
    display_month(m, y, data)
}

/// Deletes the static with identity `id`.
pub fn delete_static(id: usize, data: &mut Database)
    requires
        old(data).inv(),
    ensures
        final(data).inv(),
        final(data)@ == old(data)@.without_static(id),
{
    data.delete_static(id);
}

} // verus!
