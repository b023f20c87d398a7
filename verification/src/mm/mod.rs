//! Memory management: physical frames, the kernel heap, and page tables.

pub mod frame;
pub mod heap;

use vstd::prelude::*;

verus! {

/// The unit `format_bytes` settles on: how many times a value can be
/// divided by 1024 (at most four) before it drops below 1024.
pub open spec fn unit_steps(bytes: nat, unit: nat) -> nat
    decreases 4 - unit,
{
    if unit >= 4 || bytes < 1024 {
        unit
    } else {
        unit_steps(bytes / 1024, unit + 1)
    }
}

/// The value `format_bytes` reports for `bytes` starting at `unit`.
pub open spec fn unit_value(bytes: nat, unit: nat) -> nat
    decreases 4 - unit,
{
    if unit >= 4 || bytes < 1024 {
        bytes
    } else {
        unit_value(bytes / 1024, unit + 1)
    }
}

pub open spec fn unit_name(unit: nat) -> Seq<char> {
    if unit == 0 {
        "B"@
    } else if unit == 1 {
        "KiB"@
    } else if unit == 2 {
        "MiB"@
    } else if unit == 3 {
        "GiB"@
    } else {
        "TiB"@
    }
}

/// Human-readable byte count: the value in the largest binary unit (up to
/// TiB) that keeps it at least 1 where possible, and the unit's name.
pub fn format_bytes(bytes: u64) -> (r: (u64, &'static str))
    ensures
        r.0 == unit_value(bytes as nat, 0),
        r.1@ == unit_name(unit_steps(bytes as nat, 0)),
{
    let mut value = bytes;
    let mut unit: usize = 0;
    while value >= 1024 && unit < 4
        invariant
            unit <= 4,
            unit_value(value as nat, unit as nat) == unit_value(bytes as nat, 0),
            unit_steps(value as nat, unit as nat) == unit_steps(bytes as nat, 0),
        decreases 4 - unit,
    {
        value = value / 1024;
        unit += 1;
    }
    let name = if unit == 0 {
        "B"
    } else if unit == 1 {
        "KiB"
    } else if unit == 2 {
        "MiB"
    } else if unit == 3 {
        "GiB"
    } else {
        "TiB"
    };
    proof {
        reveal_strlit("B");
        reveal_strlit("KiB");
        reveal_strlit("MiB");
        reveal_strlit("GiB");
        reveal_strlit("TiB");
    }
    (value, name)
}

} // verus!
