use vstd::prelude::*;

verus! {

/// The character of a decimal digit.
pub open spec fn digit_char(d: nat) -> char {
    if d == 0 {
        '0'
    } else if d == 1 {
        '1'
    } else if d == 2 {
        '2'
    } else if d == 3 {
        '3'
    } else if d == 4 {
        '4'
    } else if d == 5 {
        '5'
    } else if d == 6 {
        '6'
    } else if d == 7 {
        '7'
    } else if d == 8 {
        '8'
    } else {
        '9'
    }
}

/// The decimal numeral of `n`, without leading zeros.
pub open spec fn decimal(n: nat) -> Seq<char>
    decreases n,
{
    if n < 10 {
        seq![digit_char(n)]
    } else {
        decimal(n / 10) + seq![digit_char(n % 10)]
    }
}

/// An elapsed time in tenths of a second, rounded to the nearest tenth, halves up.
pub open spec fn tenths(secs: nat, nanos: nat) -> nat {
    secs * 10 + (nanos + 50_000_000) / 100_000_000
}

/// How an elapsed time is shown: under a minute in seconds with one decimal
/// (`4.2s`), else in whole minutes and seconds (`2m 5s`).
pub open spec fn elapsed_text(secs: nat, nanos: nat) -> Seq<char> {
    if secs < 60 {
        decimal(tenths(secs, nanos) / 10) + "."@ + decimal(tenths(secs, nanos) % 10) + "s"@
    } else {
        decimal(secs / 60) + "m "@ + decimal(secs % 60) + "s"@
    }
}

/// The position of a step among all steps, as in `[3/8]`.
pub open spec fn step_label_text(index: nat, total: nat) -> Seq<char> {
    "["@ + decimal(index) + "/"@ + decimal(total) + "]"@
}

fn digit_str(d: u64) -> (r: &'static str)
    requires
        d < 10,
    ensures
        r@ == seq![digit_char(d as nat)],
{
    if d == 0 {
        proof {
            reveal_strlit("0");
        }
        "0"
    } else if d == 1 {
        proof {
            reveal_strlit("1");
        }
        "1"
    } else if d == 2 {
        proof {
            reveal_strlit("2");
        }
        "2"
    } else if d == 3 {
        proof {
            reveal_strlit("3");
        }
        "3"
    } else if d == 4 {
        proof {
            reveal_strlit("4");
        }
        "4"
    } else if d == 5 {
        proof {
            reveal_strlit("5");
        }
        "5"
    } else if d == 6 {
        proof {
            reveal_strlit("6");
        }
        "6"
    } else if d == 7 {
        proof {
            reveal_strlit("7");
        }
        "7"
    } else if d == 8 {
        proof {
            reveal_strlit("8");
        }
        "8"
    } else {
        proof {
            reveal_strlit("9");
        }
        "9"
    }
}

/// Appends the decimal numeral of `n` to `s`.
pub fn push_decimal(s: &mut String, n: u64)
    ensures
        final(s)@ == old(s)@ + decimal(n as nat),
    decreases n,
{
    if n >= 10 {
        push_decimal(s, n / 10);
    }
    s.append(digit_str(n % 10));
    proof {
        if n < 10 {
            assert(n % 10 == n);
        }
    }
}

/// An elapsed time as shown beside a step: `4.2s` under a minute, else `2m 5s`.
pub fn format_elapsed(secs: u64, subsec_nanos: u32) -> (r: String)
    requires
        subsec_nanos < 1_000_000_000,
    ensures
        r@ == elapsed_text(secs as nat, subsec_nanos as nat),
{
    let mut r = String::new();
    if secs < 60 {
        let t: u64 = secs * 10 + (subsec_nanos as u64 + 50_000_000) / 100_000_000;
        push_decimal(&mut r, t / 10);
        r.append(".");
        push_decimal(&mut r, t % 10);
        r.append("s");
    } else {
        push_decimal(&mut r, secs / 60);
        r.append("m ");
        push_decimal(&mut r, secs % 60);
        r.append("s");
    }
    r
}

/// The position of a step among all steps, as in `[3/8]`.
pub fn step_label(index: usize, total: usize) -> (r: String)
    ensures
        r@ == step_label_text(index as nat, total as nat),
{
    let mut r = String::from_str("[");
    push_decimal(&mut r, index as u64);
    r.append("/");
    push_decimal(&mut r, total as u64);
    r.append("]");
    r
}

} // verus!
