//! Fragments of the polling metric producers: battery, memory, processor
//! load and temperature.
//!
//! Every query result arrives as a plain value (battery charge in tenths of
//! a percent, memory in bytes, load in hundredths, temperature in tenths of
//! a degree), `None` standing for a collaborator that failed.  A failed
//! query degrades to a placeholder fragment; it never stops the producer.

use crate::digits::{
    append_hundredths, append_tenths, hundredths_digits, tenths_digits, tenths_digits_nat,
};
use vstd::prelude::*;

verus! {

/// What the result of `human_bytes` reads as; a function of the byte count
/// alone.
pub uninterp spec fn human_bytes_of(n: u64) -> Seq<char>;

/// Relies on bytesize::ByteSize's SI display: a byte count rendered with one
/// decimal place and a decimal unit, depending on the count alone.
#[verifier::external_body]
fn human_bytes(n: u64) -> (r: String)
    ensures
        r@ == human_bytes_of(n),
{
    format!("{}", bytesize::ByteSize(n).display().si())
}

/// The power-supply glyph: a plug on mains power or when the query failed,
/// a battery otherwise.
pub open spec fn plugged_spec(on_ac: Option<bool>) -> Seq<char> {
    match on_ac {
        Some(false) => "🔋"@,
        _ => "🔌"@,
    }
}

/// The power-supply glyph for an AC-power reading.
pub fn plugged(on_ac: Option<bool>) -> (r: String)
    ensures
        r@ == plugged_spec(on_ac),
{
    match on_ac {
        Some(false) => String::from_str("🔋"),
        _ => String::from_str("🔌"),
    }
}

/// The battery fragment: the power-supply glyph and the remaining charge
/// with one decimal place, or nothing at all when no battery reading is
/// available.
pub open spec fn battery_spec(tenths_pct: Option<u32>, on_ac: Option<bool>) -> Seq<char> {
    match tenths_pct {
        Some(t) => plugged_spec(on_ac) + " "@ + tenths_digits_nat(t as nat) + "% ⸱ "@,
        None => Seq::empty(),
    }
}

/// The battery fragment for a charge reading in tenths of a percent.
pub fn battery(tenths_pct: Option<u32>, on_ac: Option<bool>) -> (r: String)
    ensures
        r@ == battery_spec(tenths_pct, on_ac),
{
    match tenths_pct {
        Some(t) => {
            let mut r = plugged(on_ac);
            r.append(" ");
            append_tenths(&mut r, t as u64);
            r.append("% ⸱ ");
            proof {
                assert(r@ =~= battery_spec(tenths_pct, on_ac));
            }
            r
        },
        None => String::new(),
    }
}

/// The memory fragment: the used amount, human-readable, behind a frame
/// glyph; an underscore when the memory query failed.
pub open spec fn ram_spec(mem: Option<(u64, u64)>) -> Seq<char> {
    match mem {
        Some((total, free)) => "▯ "@ + human_bytes_of((total - free) as u64),
        None => "▯ _"@,
    }
}

/// The memory fragment for a total/free byte reading.
pub fn ram(mem: Option<(u64, u64)>) -> (r: String)
    requires
        mem matches Some((total, free)) ==> free <= total,
    ensures
        r@ == ram_spec(mem),
{
    match mem {
        Some((total, free)) => {
            let mut r = String::from_str("▯ ");
            let used = human_bytes(total - free);
            r.append(used.as_str());
            proof {
                assert(r@ =~= ram_spec(mem));
            }
            r
        },
        None => String::from_str("▯ _"),
    }
}

/// The processor fragment: the one-minute load average with two decimal
/// places behind a gear glyph; an underscore when the query failed.
pub open spec fn cpu_spec(load_hundredths: Option<u64>) -> Seq<char> {
    match load_hundredths {
        Some(h) => "⚙ "@ + hundredths_digits(h as nat),
        None => "⚙ _"@,
    }
}

/// The processor fragment for a load reading in hundredths.
pub fn cpu(load_hundredths: Option<u64>) -> (r: String)
    ensures
        r@ == cpu_spec(load_hundredths),
{
    match load_hundredths {
        Some(h) => {
            let mut r = String::from_str("⚙ ");
            append_hundredths(&mut r, h);
            proof {
                assert(r@ =~= cpu_spec(load_hundredths));
            }
            r
        },
        None => String::from_str("⚙ _"),
    }
}

/// The combined system-statistics fragment: battery, memory and processor in
/// that order, each metric degrading to its own placeholder independently.
pub open spec fn systemstat_spec(
    battery_tenths: Option<u32>,
    on_ac: Option<bool>,
    mem: Option<(u64, u64)>,
    load_hundredths: Option<u64>,
) -> Seq<char> {
    battery_spec(battery_tenths, on_ac) + ram_spec(mem) + " ⸱ "@ + cpu_spec(load_hundredths)
        + " ⸱ "@
}

/// The fragment of one poll of the system-statistics producer.
pub fn systemstat_fragment(
    battery_tenths: Option<u32>,
    on_ac: Option<bool>,
    mem: Option<(u64, u64)>,
    load_hundredths: Option<u64>,
) -> (r: String)
    requires
        mem matches Some((total, free)) ==> free <= total,
    ensures
        r@ == systemstat_spec(battery_tenths, on_ac, mem, load_hundredths),
{
    let mut r = battery(battery_tenths, on_ac);
    let m = ram(mem);
    r.append(m.as_str());
    r.append(" ⸱ ");
    let c = cpu(load_hundredths);
    r.append(c.as_str());
    r.append(" ⸱ ");
    proof {
        assert(r@ =~= systemstat_spec(battery_tenths, on_ac, mem, load_hundredths));
    }
    r
}

/// The temperature fragment: the reading with one decimal place behind a
/// thermometer glyph; an underscore when the sensor read failed.
pub open spec fn temp_spec(tenths_deg: Option<i64>) -> Seq<char> {
    match tenths_deg {
        Some(t) => "🌡 "@ + tenths_digits(t as int) + " ⸱ "@,
        None => "🌡 _ ⸱ "@,
    }
}

/// The temperature fragment for a reading in tenths of a degree.
pub fn temp_fragment(tenths_deg: Option<i64>) -> (r: String)
    ensures
        r@ == temp_spec(tenths_deg),
{
    match tenths_deg {
        Some(t) => {
            let mut r = String::from_str("🌡 ");
            if t < 0 {
                r.append("-");
                let m: u64 = (-(t as i128)) as u64;
                proof {
                    reveal_strlit("-");
                }
                append_tenths(&mut r, m);
            } else {
                append_tenths(&mut r, t as u64);
            }
            r.append(" ⸱ ");
            proof {
                assert(r@ =~= temp_spec(tenths_deg));
            }
            r
        },
        None => String::from_str("🌡 _ ⸱ "),
    }
}

} // verus!
