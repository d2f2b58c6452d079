//! Misc utilities.

use vstd::prelude::*;

use crate::digits::{dec_int, i64_to_dec};

verus! {

/// Seconds in one minute, hour, day and week.
pub const SECS_PER_MINUTE: i64 = 60;

pub const SECS_PER_HOUR: i64 = 3600;

pub const SECS_PER_DAY: i64 = 86400;

pub const SECS_PER_WEEK: i64 = 604800;

/// A count followed by a unit word.
pub open spec fn with_unit(n: int, unit: Seq<u8>) -> Seq<u8> {
    dec_int(n) + seq![(' ' as u8)] + unit
}

pub open spec fn unit_year() -> Seq<u8> {
    seq![('y' as u8), ('e' as u8), ('a' as u8), ('r' as u8)]
}

pub open spec fn unit_week() -> Seq<u8> {
    seq![('w' as u8), ('e' as u8), ('e' as u8), ('k' as u8)]
}

pub open spec fn unit_day() -> Seq<u8> {
    seq![('d' as u8), ('a' as u8), ('y' as u8)]
}

pub open spec fn unit_hour() -> Seq<u8> {
    seq![('h' as u8), ('o' as u8), ('u' as u8), ('r' as u8)]
}

pub open spec fn unit_minute() -> Seq<u8> {
    seq![('m' as u8), ('i' as u8), ('n' as u8), ('u' as u8), ('t' as u8), ('e' as u8)]
}

pub open spec fn plural(s: Seq<u8>) -> Seq<u8> {
    s + seq![('s' as u8)]
}

/// A human-readable rendering of a duration of `secs` seconds, as whole
/// units: a year is taken as fifty-two weeks, anything between two marks is
/// rounded down, and the unit is singular exactly when the count shown is
/// one — fifty-three weeks is still `1 year`.  Durations under a minute
/// (and negative ones) come out as plain seconds.
pub open spec fn spec_human_dur(secs: int) -> Seq<u8> {
    if secs < 0 {
        dec_int(secs) + seq![('s' as u8)]
    } else {
        let weeks = secs / (SECS_PER_WEEK as int);
        let days = secs / (SECS_PER_DAY as int);
        let hours = secs / (SECS_PER_HOUR as int);
        let minutes = secs / (SECS_PER_MINUTE as int);
        if weeks >= 52 && weeks / 52 == 1 {
            with_unit(weeks / 52, unit_year())
        } else if weeks > 52 {
            with_unit(weeks / 52, plural(unit_year()))
        } else if weeks == 1 {
            with_unit(weeks, unit_week())
        } else if weeks > 1 {
            with_unit(weeks, plural(unit_week()))
        } else if days == 1 {
            with_unit(days, unit_day())
        } else if days > 1 {
            with_unit(days, plural(unit_day()))
        } else if hours > 1 {
            with_unit(hours, plural(unit_hour()))
        } else if minutes == 1 {
            with_unit(minutes, unit_minute())
        } else if minutes > 1 {
            with_unit(minutes, plural(unit_minute()))
        } else {
            dec_int(secs) + seq![('s' as u8)]
        }
    }
}

fn push_unit(out: &mut Vec<u8>, unit: &[u8], plural_s: bool)
    ensures
        final(out)@ == old(out)@ + seq![(' ' as u8)] + unit@ + if plural_s {
            seq![('s' as u8)]
        } else {
            Seq::empty()
        },
{
    out.push(' ' as u8);
    let mut u = vstd::slice::slice_to_vec(unit);
    out.append(&mut u);
    if plural_s {
        out.push('s' as u8);
    }
    proof {
        assert(out@ =~= old(out)@ + seq![(' ' as u8)] + unit@ + if plural_s {
            seq![('s' as u8)]
        } else {
            Seq::<u8>::empty()
        });
    }
}

/// Render a duration of `secs` seconds in whole units.  See
/// [`spec_human_dur`].
pub fn human_dur(secs: i64) -> (r: Vec<u8>)
    ensures
        r@ == spec_human_dur(secs as int),
{
    let year: Vec<u8> = vec![('y' as u8), ('e' as u8), ('a' as u8), ('r' as u8)];
    let week: Vec<u8> = vec![('w' as u8), ('e' as u8), ('e' as u8), ('k' as u8)];
    let day: Vec<u8> = vec![('d' as u8), ('a' as u8), ('y' as u8)];
    let hour: Vec<u8> = vec![('h' as u8), ('o' as u8), ('u' as u8), ('r' as u8)];
    let minute: Vec<u8> = vec![
        ('m' as u8),
        ('i' as u8),
        ('n' as u8),
        ('u' as u8),
        ('t' as u8),
        ('e' as u8),
    ];
    proof {
        assert(year@ =~= unit_year());
        assert(week@ =~= unit_week());
        assert(day@ =~= unit_day());
        assert(hour@ =~= unit_hour());
        assert(minute@ =~= unit_minute());
    }
    if secs < 0 {
        let mut out = i64_to_dec(secs);
        out.push('s' as u8);
        proof {
            assert(out@ =~= spec_human_dur(secs as int));
        }
        return out;
    }
    let weeks = secs / SECS_PER_WEEK;
    let days = secs / SECS_PER_DAY;
    let hours = secs / SECS_PER_HOUR;
    let minutes = secs / SECS_PER_MINUTE;
    if weeks >= 52 && weeks / 52 == 1 {
        let mut out = i64_to_dec(weeks / 52);
        push_unit(&mut out, year.as_slice(), false);
        proof {
            assert(out@ =~= spec_human_dur(secs as int));
        }
        out
    } else if weeks > 52 {
        let mut out = i64_to_dec(weeks / 52);
        push_unit(&mut out, year.as_slice(), true);
        proof {
            assert(out@ =~= spec_human_dur(secs as int));
        }
        out
    } else if weeks == 1 {
        let mut out = i64_to_dec(weeks);
        push_unit(&mut out, week.as_slice(), false);
        proof {
            assert(out@ =~= spec_human_dur(secs as int));
        }
        out
    } else if weeks > 1 {
        let mut out = i64_to_dec(weeks);
        push_unit(&mut out, week.as_slice(), true);
        proof {
            assert(out@ =~= spec_human_dur(secs as int));
        }
        out
    } else if days == 1 {
        let mut out = i64_to_dec(days);
        push_unit(&mut out, day.as_slice(), false);
        proof {
            assert(out@ =~= spec_human_dur(secs as int));
        }
        out
    } else if days > 1 {
        let mut out = i64_to_dec(days);
        push_unit(&mut out, day.as_slice(), true);
        proof {
            assert(out@ =~= spec_human_dur(secs as int));
        }
        out
    } else if hours > 1 {
        let mut out = i64_to_dec(hours);
        push_unit(&mut out, hour.as_slice(), true);
        proof {
            assert(out@ =~= spec_human_dur(secs as int));
        }
        out
    } else if minutes == 1 {
        let mut out = i64_to_dec(minutes);
        push_unit(&mut out, minute.as_slice(), false);
        proof {
            assert(out@ =~= spec_human_dur(secs as int));
        }
        out
    } else if minutes > 1 {
        let mut out = i64_to_dec(minutes);
        push_unit(&mut out, minute.as_slice(), true);
        proof {
            assert(out@ =~= spec_human_dur(secs as int));
        }
        out
    } else {
        let mut out = i64_to_dec(secs);
        out.push('s' as u8);
        proof {
            assert(out@ =~= spec_human_dur(secs as int));
        }
        out
    }
}

} // verus!
