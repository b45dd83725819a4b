//! Formatting of figures for the panels, and the parsing of custom colors.
use vstd::prelude::*;
use vstd::string::*;

use crate::config::ConfigColor;
use crate::text::{decimal, decimal_pad2, digit_value, is_digit, push_decimal, push_decimal_pad2, push_str};

verus! {

/// The saturating percentage of `used` in `capacity`, capped at 100; 0 when
/// the capacity is 0.
pub open spec fn percentage_of(used: u64, capacity: u64) -> int {
    if capacity == 0 {
        0
    } else {
        let scaled = if used * 100 > u64::MAX { u64::MAX as int } else { used * 100 };
        let quotient = scaled / (capacity as int);
        if quotient < 100 { quotient } else { 100 }
    }
}

/// How much of `capacity` is `used`, in whole percent (rounded down, at most 100).
pub fn percentage(used: u64, capacity: u64) -> (r: u64)
    ensures
        r == percentage_of(used, capacity),
        r <= 100,
{
    if capacity == 0 {
        0
    } else {
        let scaled = if used > u64::MAX / 100 { u64::MAX } else { used * 100 };
        let quotient = scaled / capacity;
        if quotient < 100 { quotient } else { 100 }
    }
}

/// A title followed by the position of the shown item among all items.
pub open spec fn indexed_title_text(label: Seq<char>, index: nat, total: nat) -> Seq<char> {
    if total == 0 {
        label
    } else {
        label + " ("@ + decimal(index + 1) + "/"@ + decimal(total) + ")"@
    }
}

/// `label`, followed by `(index + 1/total)` when there are items.
pub fn indexed_title(label: &str, index: usize, total: usize) -> (r: String)
    requires
        total == 0 || index < usize::MAX,
    ensures
        r@ == indexed_title_text(label@, index as nat, total as nat),
{
    let mut r = String::from_str(label);
    if total != 0 {
        push_str(&mut r, " (");
        push_decimal(&mut r, (index + 1) as u64);
        push_str(&mut r, "/");
        push_decimal(&mut r, total as u64);
        push_str(&mut r, ")");
    }
    r
}

/// A duration in seconds as minutes and seconds, with hours and days in
/// front once they are not zero, each part at least two digits wide.
pub open spec fn duration_text(seconds: nat) -> Seq<char> {
    let days = seconds / 86400;
    let hours = seconds / 3600;
    let minutes = seconds / 60;
    if days > 0 {
        let rest = seconds % 86400;
        decimal_pad2(days) + "d"@ + decimal_pad2(rest / 3600) + "h"@ + decimal_pad2((rest % 3600) / 60)
            + "m"@ + decimal_pad2((rest % 3600) % 60) + "s"@
    } else if hours > 0 {
        let rest = seconds % 3600;
        decimal_pad2(hours) + "h"@ + decimal_pad2(rest / 60) + "m"@ + decimal_pad2(rest % 60) + "s"@
    } else {
        decimal_pad2(minutes) + "m"@ + decimal_pad2(seconds % 60) + "s"@
    }
}

/// Formats an uptime or a run time given in seconds.
pub fn time_fmt(seconds: u64) -> (r: String)
    ensures
        r@ == duration_text(seconds as nat),
{
    let days = seconds / 86400;
    let hours = seconds / 3600;
    let minutes = seconds / 60;
    let mut r = String::new();
    if days > 0 {
        let remaining_hrs = seconds % 86400;
        let hours = remaining_hrs / 3600;
        let remaining_mins = remaining_hrs % 3600;
        let mins = remaining_mins / 60;
        let secs = remaining_mins % 60;
        push_decimal_pad2(&mut r, days);
        push_str(&mut r, "d");
        push_decimal_pad2(&mut r, hours);
        push_str(&mut r, "h");
        push_decimal_pad2(&mut r, mins);
        push_str(&mut r, "m");
        push_decimal_pad2(&mut r, secs);
        push_str(&mut r, "s");
    } else if hours > 0 {
        let remaining_mins = seconds % 3600;
        let mins = remaining_mins / 60;
        let secs = remaining_mins % 60;
        push_decimal_pad2(&mut r, hours);
        push_str(&mut r, "h");
        push_decimal_pad2(&mut r, mins);
        push_str(&mut r, "m");
        push_decimal_pad2(&mut r, secs);
        push_str(&mut r, "s");
    } else {
        let secs = seconds % 60;
        push_decimal_pad2(&mut r, minutes);
        push_str(&mut r, "m");
        push_decimal_pad2(&mut r, secs);
        push_str(&mut r, "s");
    }
    assert(r@ =~= duration_text(seconds as nat));
    r
}

/// The unit in which a number of bytes is shown: the largest binary unit, up
/// to terabytes, that is not more than the number.
#[derive(Debug, Clone, Copy, PartialEq, Eq, Structural)]
pub enum ByteUnit {
    Bytes,
    Kilobytes,
    Megabytes,
    Gigabytes,
    Terabytes,
}

pub const KIB: u64 = 1024;
pub const MIB: u64 = 1048576;
pub const GIB: u64 = 1073741824;
pub const TIB: u64 = 1099511627776;

/// The unit in which `bytes` is shown.
pub open spec fn unit_for(bytes: u64) -> ByteUnit {
    if bytes >= TIB {
        ByteUnit::Terabytes
    } else if bytes >= GIB {
        ByteUnit::Gigabytes
    } else if bytes >= MIB {
        ByteUnit::Megabytes
    } else if bytes >= KIB {
        ByteUnit::Kilobytes
    } else {
        ByteUnit::Bytes
    }
}

/// The number of bytes in one of a unit.
pub open spec fn unit_size(unit: ByteUnit) -> u64 {
    match unit {
        ByteUnit::Bytes => 1,
        ByteUnit::Kilobytes => KIB,
        ByteUnit::Megabytes => MIB,
        ByteUnit::Gigabytes => GIB,
        ByteUnit::Terabytes => TIB,
    }
}

/// The symbol of a unit.
pub open spec fn unit_symbol(unit: ByteUnit) -> Seq<char> {
    match unit {
        ByteUnit::Bytes => "B"@,
        ByteUnit::Kilobytes => "KB"@,
        ByteUnit::Megabytes => "MB"@,
        ByteUnit::Gigabytes => "GB"@,
        ByteUnit::Terabytes => "TB"@,
    }
}

/// Picks the unit in which `bytes` is shown.
pub fn byte_unit(bytes: u64) -> (r: ByteUnit)
    ensures
        r == unit_for(bytes),
        unit_size(r) <= bytes || r == ByteUnit::Bytes,
        r == ByteUnit::Terabytes || bytes < unit_size(r) * 1024,
{
    if bytes >= TIB {
        ByteUnit::Terabytes
    } else if bytes >= GIB {
        ByteUnit::Gigabytes
    } else if bytes >= MIB {
        ByteUnit::Megabytes
    } else if bytes >= KIB {
        ByteUnit::Kilobytes
    } else {
        ByteUnit::Bytes
    }
}

impl ByteUnit {
    /// The number of bytes in one of this unit.
    pub fn size(self) -> (r: u64)
        ensures
            r == unit_size(self),
    {
        match self {
            ByteUnit::Bytes => 1,
            ByteUnit::Kilobytes => KIB,
            ByteUnit::Megabytes => MIB,
            ByteUnit::Gigabytes => GIB,
            ByteUnit::Terabytes => TIB,
        }
    }

    /// The symbol of this unit.
    pub fn symbol(self) -> (r: &'static str)
        ensures
            r@ == unit_symbol(self),
    {
        match self {
            ByteUnit::Bytes => "B",
            ByteUnit::Kilobytes => "KB",
            ByteUnit::Megabytes => "MB",
            ByteUnit::Gigabytes => "GB",
            ByteUnit::Terabytes => "TB",
        }
    }
}

} // verus!
