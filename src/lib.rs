//! A lunisolar calendar over integer day numbers: Julian day conversion, the
//! sexagenary (GanZhi) cycle, the leap-month rule of the Chinese calendar,
//! civil/lunar date conversion, the day-by-day month generator, and the
//! integer bookkeeping of the ephemeris (bodies, precession-table rows and
//! series truncation).
pub mod ganzhi;
pub mod julian;
pub mod calendar;
pub mod dates;
pub mod month;
pub mod precession;
pub mod bodies;
pub mod series;
