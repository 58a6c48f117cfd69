//! Rendering of format strings such as `[%p] %H:%M | %c%%`.

use vstd::prelude::*;
use crate::text::{
    chars_of, decimal, digit_char, digits_value, extend_chars, is_digit, lemma_decimal_reads_back,
    lemma_padded_reads_back, lemma_three_digits, lemma_two_digits, push_decimal, push_padded,
    string_of, zero_padded,
};
use crate::sample::{power_status, status_label};

verus! {

/// The time figures of one estimate. `minutes` is the rounded number of
/// minutes, or `None` where no finite estimate exists; `hours_text` and
/// `days_text` are the one-decimal renderings of `minutes / 60` and
/// `minutes / 1440` (ignored where `minutes` is `None`).
pub struct TimeFigures {
    pub minutes: Option<u64>,
    pub hours_text: String,
    pub days_text: String,
}

/// The capacity figures of one sample: `rounded_text` is the capacity
/// percentage rounded to a whole number, `whole` its integer part.
pub struct CapacityFigures {
    pub rounded_text: String,
    pub whole: u64,
}

/// Everything a specifier can expand to: the rounded minutes (`None`
/// where no finite estimate exists) and the texts that go with them.
pub struct Fields {
    pub minutes: Option<u64>,
    pub hours_text: Seq<char>,
    pub days_text: Seq<char>,
    pub label: Seq<char>,
    pub capacity_text: Seq<char>,
    pub capacity_whole: nat,
}

/// Whole days in `total` minutes.
pub open spec fn days_of(total: nat) -> nat {
    total / 1440
}

/// Hours left over after the whole days.
pub open spec fn hours_of(total: nat) -> nat {
    (total % 1440) / 60
}

/// Minutes left over after the whole hours.
pub open spec fn minutes_of(total: nat) -> nat {
    total % 60
}

/// What a time specifier expands to: `finite` for a finite estimate, `inf`
/// for the totals (`%m %h %d %D`) and `00` for the components (`%H %M`)
/// where there is none.
pub open spec fn time_field(minutes: Option<u64>, total_field: bool, finite: spec_fn(nat) -> Seq<char>) -> Seq<char> {
    match minutes {
        Some(m) => finite(m as nat),
        None => if total_field {
            "inf"@
        } else {
            "00"@
        },
    }
}

/// What the specifier `%c` (for the character `c`) expands to.
pub open spec fn expansion(c: char, f: Fields) -> Seq<char> {
    if c == 'm' {
        time_field(f.minutes, true, |t: nat| decimal(t))
    } else if c == 'h' {
        time_field(f.minutes, true, |t: nat| f.hours_text)
    } else if c == 'd' {
        time_field(f.minutes, true, |t: nat| zero_padded(days_of(t), 2))
    } else if c == 'D' {
        time_field(f.minutes, true, |t: nat| f.days_text)
    } else if c == 'H' {
        time_field(f.minutes, false, |t: nat| zero_padded(hours_of(t), 2))
    } else if c == 'M' {
        time_field(f.minutes, false, |t: nat| zero_padded(minutes_of(t), 2))
    } else if c == 'S' {
        seq!['0', '0']
    } else if c == 's' {
        seq!['0']
    } else if c == 'p' {
        f.label
    } else if c == 'c' {
        f.capacity_text
    } else if c == 'C' {
        zero_padded(f.capacity_whole, 3)
    } else if c == '%' {
        seq!['%']
    } else {
        seq!['%', c]
    }
}

/// The format string `fmt` with each specifier expanded, read left to
/// right; a lone `%` at the end stays as it is.
pub open spec fn expand(fmt: Seq<char>, f: Fields) -> Seq<char>
    decreases fmt.len(),
{
    if fmt.len() == 0 {
        Seq::empty()
    } else if fmt[0] != '%' {
        seq![fmt[0]] + expand(fmt.drop_first(), f)
    } else if fmt.len() == 1 {
        seq!['%']
    } else {
        expansion(fmt[1], f) + expand(fmt.skip(2), f)
    }
}

/// What `format_time` renders.
pub open spec fn rendering(
    minutes: Option<u64>,
    hours_text: Seq<char>,
    days_text: Seq<char>,
    status: Seq<char>,
    fmt: Seq<char>,
    capacity_text: Seq<char>,
    capacity_whole: nat,
) -> Seq<char> {
    expand(
        fmt,
        Fields {
            minutes,
            hours_text,
            days_text,
            label: status_label(status),
            capacity_text,
            capacity_whole,
        },
    )
}

/// The day, hour and minute components reassemble the total, with fewer
/// than 24 hours and 60 minutes.
pub proof fn lemma_components(total: nat)
    ensures
        days_of(total) * 1440 + hours_of(total) * 60 + minutes_of(total) == total,
        hours_of(total) < 24,
        minutes_of(total) < 60,
{
    assert(days_of(total) * 1440 + hours_of(total) * 60 + minutes_of(total) == total)
        by (nonlinear_arith);
}

/// What the time and capacity specifiers show. For a finite estimate of
/// `t` minutes: `%m` is the digits of `t`, without a leading zero; `%d` is
/// the digits of the whole days, at least two of them; `%H` and `%M` are
/// exactly two digits, the tens and units of the hours within the day and
/// of the minutes within the hour. `%C` is three digits for a capacity
/// below 1000. With no finite estimate, `%m %h %d %D` read `inf` and
/// `%H %M` read `00`; `%S` and `%s` always read `00` and `0`.
pub proof fn lemma_field_values(f: Fields)
    ensures
        f.minutes matches Some(t) ==> digits_value(expansion('m', f)) == t
            && (forall|i: int| 0 <= i < expansion('m', f).len() ==> is_digit(#[trigger] expansion('m', f)[i]))
            && (expansion('m', f).len() > 1 ==> expansion('m', f)[0] != '0'),
        f.minutes matches Some(t) ==> digits_value(expansion('d', f)) == t / 1440
            && expansion('d', f).len() >= 2
            && (forall|i: int| 0 <= i < expansion('d', f).len() ==> is_digit(#[trigger] expansion('d', f)[i])),
        f.minutes matches Some(t) ==> expansion('H', f) == seq![
            digit_char((((t % 1440) / 60) / 10) as int),
            digit_char((((t % 1440) / 60) % 10) as int),
        ],
        f.minutes matches Some(t) ==> expansion('M', f) == seq![
            digit_char(((t % 60) / 10) as int),
            digit_char(((t % 60) % 10) as int),
        ],
        f.capacity_whole < 1000 ==> expansion('C', f) == seq![
            digit_char((f.capacity_whole / 100) as int),
            digit_char(((f.capacity_whole / 10) % 10) as int),
            digit_char((f.capacity_whole % 10) as int),
        ],
        f.minutes is None ==> expansion('m', f) == "inf"@ && expansion('h', f) == "inf"@
            && expansion('d', f) == "inf"@ && expansion('D', f) == "inf"@,
        f.minutes is None ==> expansion('H', f) == "00"@ && expansion('M', f) == "00"@,
        expansion('S', f) == seq!['0', '0'] && expansion('s', f) == seq!['0'],
{
    if let Some(t) = f.minutes {
        lemma_decimal_reads_back(t as nat);
        lemma_padded_reads_back((t / 1440) as nat, 2);
        lemma_two_digits(((t % 1440) / 60) as nat);
        lemma_two_digits((t % 60) as nat);
    }
    if f.capacity_whole < 1000 {
        lemma_three_digits(f.capacity_whole);
    }
}

/// Text without `%` renders as it is.
pub proof fn lemma_plain_text(fmt: Seq<char>, f: Fields)
    requires
        forall|i: int| 0 <= i < fmt.len() ==> #[trigger] fmt[i] != '%',
    ensures
        expand(fmt, f) == fmt,
    decreases fmt.len(),
{
    if fmt.len() > 0 {
        lemma_plain_text(fmt.drop_first(), f);
        assert(fmt =~= seq![fmt[0]] + fmt.drop_first());
    }
}

/// `%%` renders as one `%`, and rendering goes on after it.
pub proof fn lemma_percent_escape(rest: Seq<char>, f: Fields)
    ensures
        expand(seq!['%', '%'] + rest, f) == seq!['%'] + expand(rest, f),
{
    let fmt = seq!['%', '%'] + rest;
    assert(fmt.skip(2) =~= rest);
}

/// Appends what the specifier character `c` expands to.
fn push_expansion(
    out: &mut Vec<char>,
    c: char,
    minutes: Option<u64>,
    hours_text: &Vec<char>,
    days_text: &Vec<char>,
    label: &Vec<char>,
    capacity_text: &Vec<char>,
    capacity_whole: u64,
)
    ensures
        final(out)@ == old(out)@ + expansion(
            c,
            Fields {
                minutes,
                hours_text: hours_text@,
                days_text: days_text@,
                label: label@,
                capacity_text: capacity_text@,
                capacity_whole: capacity_whole as nat,
            },
        ),
{
    let ghost start = out@;
    let inf = chars_of("inf");
    let zeros = chars_of("00");
    if c == 'm' || c == 'h' || c == 'd' || c == 'D' {
        match minutes {
            None => extend_chars(out, &inf),
            Some(total) => {
                if c == 'm' {
                    push_decimal(out, total);
                } else if c == 'h' {
                    extend_chars(out, hours_text);
                } else if c == 'd' {
                    push_padded(out, total / 1440, 2);
                } else {
                    extend_chars(out, days_text);
                }
            },
        }
    } else if c == 'H' || c == 'M' {
        match minutes {
            None => extend_chars(out, &zeros),
            Some(total) => {
                if c == 'H' {
                    push_padded(out, (total % 1440) / 60, 2);
                } else {
                    push_padded(out, total % 60, 2);
                }
            },
        }
    } else if c == 'S' {
        out.push('0');
        out.push('0');
        assert(out@ =~= start + seq!['0', '0']);
    } else if c == 's' {
        out.push('0');
        assert(out@ =~= start + seq!['0']);
    } else if c == 'p' {
        extend_chars(out, label);
    } else if c == 'c' {
        extend_chars(out, capacity_text);
    } else if c == 'C' {
        push_padded(out, capacity_whole, 3);
    } else if c == '%' {
        out.push('%');
        assert(out@ =~= start + seq!['%']);
    } else {
        out.push('%');
        out.push(c);
        assert(out@ =~= start + seq!['%', c]);
    }
}

/// Renders `fmt` for one estimate, reading it left to right: each
/// specifier (`%p`, `%m`, `%h`, `%d`, `%D`, `%H`, `%M`, `%S`, `%s`, `%c`,
/// `%C`, `%%`) is replaced by its value, and `%%` is always a literal `%`.
/// Where no finite estimate exists, the day, hour and minute totals read
/// `inf` and the components `00`.
pub fn format_time(
    time: &TimeFigures,
    status: &str,
    fmt: &str,
    capacity: &CapacityFigures,
) -> (out: String)
    ensures
        out@ == rendering(
            time.minutes,
            time.hours_text@,
            time.days_text@,
            status@,
            fmt@,
            capacity.rounded_text@,
            capacity.whole as nat,
        ),
{
    let label = chars_of(power_status(status));
    let f = chars_of(fmt);
    let capacity_text = chars_of(capacity.rounded_text.as_str());
    let hours_text = chars_of(time.hours_text.as_str());
    let days_text = chars_of(time.days_text.as_str());
    let minutes = time.minutes;
    let ghost fields = Fields {
        minutes,
        hours_text: hours_text@,
        days_text: days_text@,
        label: label@,
        capacity_text: capacity_text@,
        capacity_whole: capacity.whole as nat,
    };
    let mut out: Vec<char> = Vec::new();
    let mut i: usize = 0;
    assert(f@.skip(0) =~= f@);
    while i < f.len()
        invariant
            i <= f.len(),
            fields == (Fields {
                minutes,
                hours_text: hours_text@,
                days_text: days_text@,
                label: label@,
                capacity_text: capacity_text@,
                capacity_whole: capacity.whole as nat,
            }),
            expand(f@, fields) == out@ + expand(f@.skip(i as int), fields),
        decreases f.len() - i,
    {
        let ghost rest = f@.skip(i as int);
        let c = f[i];
        if c != '%' {
            out.push(c);
            assert(rest.drop_first() =~= f@.skip(i + 1));
            i = i + 1;
        } else if i + 1 < f.len() {
            push_expansion(
                &mut out,
                f[i + 1],
                minutes,
                &hours_text,
                &days_text,
                &label,
                &capacity_text,
                capacity.whole,
            );
            assert(rest.skip(2) =~= f@.skip(i + 2));
            i = i + 2;
        } else {
            out.push('%');
            assert(f@.skip(i + 1) =~= Seq::<char>::empty());
            i = i + 1;
        }
    }
    assert(f@.skip(i as int) =~= Seq::<char>::empty());
    assert(out@ + Seq::<char>::empty() =~= out@);
    string_of(&out)
}

} // verus!
