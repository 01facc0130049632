use vstd::arithmetic::div_mod::lemma_fundamental_div_mod_converse;
use vstd::prelude::*;
use vstd::string::StringExecFns;

verus! {

/// Relies on `web_time::SystemTime::now` and `duration_since(UNIX_EPOCH)`:
/// whole seconds since the Unix epoch, or `None` when the clock reads an
/// earlier instant. The value depends on the machine's clock, so nothing is
/// promised of it.
#[verifier::external_body]
fn system_seconds() -> (r: Option<u64>) {
    web_time::SystemTime::now().duration_since(web_time::UNIX_EPOCH).ok().map(|d| d.as_secs())
}

/// The current instant, in whole seconds since the Unix epoch; a clock set
/// before the epoch reads as the epoch itself.
pub fn now_seconds() -> (r: u64) {
    match system_seconds() {
        Some(s) => s,
        None => 0,
    }
}

pub const SECONDS_PER_DAY: u64 = 86400;

pub const MINUTES_PER_DAY: u64 = 1440;

/// The second of the local day at epoch second `secs`, for a time zone
/// `offset_minutes` behind UTC (the sign convention of JavaScript's
/// `getTimezoneOffset`: UTC+2 is -120).
pub open spec fn local_second_of_day(secs: int, offset_minutes: int) -> int {
    (secs - offset_minutes * 60) % (SECONDS_PER_DAY as int)
}

pub open spec fn digit_char(d: int) -> char {
    if d == 0 {
        '0'
    } else if d == 1 {
        '1'
    } else if d == 2 {
        '2'
    } else if d == 3 {
        '3'
    } else if d == 4 {
        '4'
    } else if d == 5 {
        '5'
    } else if d == 6 {
        '6'
    } else if d == 7 {
        '7'
    } else if d == 8 {
        '8'
    } else {
        '9'
    }
}

/// `n` below 100 in two decimal digits, with a leading zero.
pub open spec fn two_digits(n: int) -> Seq<char> {
    seq![digit_char(n / 10), digit_char(n % 10)]
}

/// The label `HH:MM:SS` of second `t` of a day.
pub open spec fn clock_text(t: int) -> Seq<char> {
    two_digits(t / 3600) + seq![':'] + two_digits((t / 60) % 60) + seq![':'] + two_digits(t % 60)
}

fn digit_text(d: u64) -> (r: &'static str)
    requires
        d < 10,
    ensures
        r@ == seq![digit_char(d as int)],
{
    proof {
        reveal_strlit("0");
        reveal_strlit("1");
        reveal_strlit("2");
        reveal_strlit("3");
        reveal_strlit("4");
        reveal_strlit("5");
        reveal_strlit("6");
        reveal_strlit("7");
        reveal_strlit("8");
        reveal_strlit("9");
    }
    let r = if d == 0 {
        "0"
    } else if d == 1 {
        "1"
    } else if d == 2 {
        "2"
    } else if d == 3 {
        "3"
    } else if d == 4 {
        "4"
    } else if d == 5 {
        "5"
    } else if d == 6 {
        "6"
    } else if d == 7 {
        "7"
    } else if d == 8 {
        "8"
    } else {
        "9"
    };
    assert(r@ =~= seq![digit_char(d as int)]);
    r
}

fn push_two_digits(s: &mut String, n: u64)
    requires
        n < 100,
    ensures
        final(s)@ == old(s)@ + two_digits(n as int),
{
    s.append(digit_text(n / 10));
    s.append(digit_text(n % 10));
    assert(final(s)@ =~= old(s)@ + two_digits(n as int));
}

/// The time zone offset in minutes brought into one day, as a whole
/// non-negative number of minutes.
fn offset_in_day(offset_minutes: i64) -> (r: u64)
    ensures
        r as int == offset_minutes as int % (MINUTES_PER_DAY as int),
        r < MINUTES_PER_DAY,
{
    if offset_minutes >= 0 {
        (offset_minutes as u64) % MINUTES_PER_DAY
    } else {
        let back: u64 = (0i128 - offset_minutes as i128) as u64;
        let m = back % MINUTES_PER_DAY;
        proof {
            let q = back as int / 1440;
            assert(back as int == q * 1440 + m as int);
            if m == 0 {
                lemma_fundamental_div_mod_converse(offset_minutes as int, 1440, -q, 0);
            } else {
                lemma_fundamental_div_mod_converse(
                    offset_minutes as int,
                    1440,
                    -q - 1,
                    1440 - m as int,
                );
            }
        }
        if m == 0 {
            0
        } else {
            MINUTES_PER_DAY - m
        }
    }
}

/// The wall-clock label `HH:MM:SS` of epoch second `secs` in a time zone
/// `offset_minutes` behind UTC; the date is left out.
pub fn clock_label(secs: u64, offset_minutes: i64) -> (r: String)
    ensures
        r@ == clock_text(local_second_of_day(secs as int, offset_minutes as int)),
{
    let day_second = secs % SECONDS_PER_DAY;
    let off = offset_in_day(offset_minutes);
    let t = (day_second + SECONDS_PER_DAY - off * 60) % SECONDS_PER_DAY;
    proof {
        let p = secs as int / 86400;
        let q = offset_minutes as int / 1440;
        assert(secs as int == p * 86400 + day_second as int);
        assert(offset_minutes as int == q * 1440 + off as int);
        let x = day_second as int + 86400 - off as int * 60;
        let k = x / 86400;
        assert(x == k * 86400 + t as int);
        assert(secs as int - offset_minutes as int * 60 == (p - q - 1 + k) * 86400 + t as int)
            by (nonlinear_arith)
            requires
                secs as int == p * 86400 + day_second as int,
                offset_minutes as int == q * 1440 + off as int,
                x == day_second as int + 86400 - off as int * 60,
                x == k * 86400 + t as int,
        ;
        lemma_fundamental_div_mod_converse(
            secs as int - offset_minutes as int * 60,
            86400,
            p - q - 1 + k,
            t as int,
        );
    }
    let mut r = String::new();
    push_two_digits(&mut r, t / 3600);
    r.append(":");
    push_two_digits(&mut r, (t / 60) % 60);
    r.append(":");
    push_two_digits(&mut r, t % 60);
    proof {
        reveal_strlit(":");
    }
    assert(r@ =~= clock_text(t as int));
    r
}

} // verus!
