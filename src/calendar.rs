use vstd::prelude::*;

verus! {

/// A calendar date, as year, month (`1..=12`) and day of the month.
#[derive(Clone, Copy, Debug, PartialEq, Eq, Structural)]
pub struct CalendarDate {
    pub year: i32,
    pub month: u8,
    pub day: u8,
}

impl CalendarDate {
    /// The month lies in `1..=12` and the day in `1..=31`.
    pub open spec fn well_formed(self) -> bool {
        1 <= self.month <= 12 && 1 <= self.day <= 31
    }

    /// Months counted from month 1 of year 0 (January of year 0 is 0).
    pub open spec fn month_index(self) -> int {
        self.year * 12 + self.month - 1
    }
}

/// The first day of the month that lies `months` calendar months after the
/// month of `start`.
pub open spec fn first_of_month_after(start: CalendarDate, months: int) -> CalendarDate {
    let idx = start.month_index() + months;
    CalendarDate { year: (idx / 12) as i32, month: (idx % 12 + 1) as u8, day: 1 }
}

/// The first day of the month that follows the month of `date`: the month
/// rolls over from December into January of the next year.
pub fn first_of_next_month(date: CalendarDate) -> (r: CalendarDate)
    requires
        date.well_formed(),
        date.month < 12 || date.year < i32::MAX,
    ensures
        r == first_of_month_after(date, 1),
        r.well_formed(),
{
    if date.month == 12 {
        CalendarDate { year: date.year + 1, month: 1, day: 1 }
    } else {
        CalendarDate { year: date.year, month: date.month + 1, day: 1 }
    }
}

} // verus!
