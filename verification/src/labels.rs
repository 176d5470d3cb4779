use vstd::prelude::*;
use vstd::string::StringExecFns;

verus! {

/// The ASCII character of a decimal digit.
pub open spec fn digit_char(digit: nat) -> char {
    if digit == 0 {
        '0'
    } else if digit == 1 {
        '1'
    } else if digit == 2 {
        '2'
    } else if digit == 3 {
        '3'
    } else if digit == 4 {
        '4'
    } else if digit == 5 {
        '5'
    } else if digit == 6 {
        '6'
    } else if digit == 7 {
        '7'
    } else if digit == 8 {
        '8'
    } else {
        '9'
    }
}

/// A number written in decimal, without leading zeros.
pub open spec fn decimal(n: nat) -> Seq<char>
    decreases n,
{
    if n < 10 {
        seq![digit_char(n)]
    } else {
        decimal(n / 10).push(digit_char(n % 10))
    }
}

fn digit_text(digit: u64) -> (text: &'static str)
    requires
        digit < 10,
    ensures
        text@ == seq![digit_char(digit as nat)],
{
    proof {
        reveal_strlit("0");
        reveal_strlit("1");
        reveal_strlit("2");
        reveal_strlit("3");
        reveal_strlit("4");
        reveal_strlit("5");
        reveal_strlit("6");
        reveal_strlit("7");
        reveal_strlit("8");
        reveal_strlit("9");
    }
    let text = if digit == 0 {
        "0"
    } else if digit == 1 {
        "1"
    } else if digit == 2 {
        "2"
    } else if digit == 3 {
        "3"
    } else if digit == 4 {
        "4"
    } else if digit == 5 {
        "5"
    } else if digit == 6 {
        "6"
    } else if digit == 7 {
        "7"
    } else if digit == 8 {
        "8"
    } else {
        "9"
    };
    text
}

fn push_decimal(text: &mut String, n: u64)
    ensures
        final(text)@ == old(text)@ + decimal(n as nat),
    decreases n,
{
    if n >= 10 {
        push_decimal(text, n / 10);
    }
    text.append(digit_text(n % 10));
}

/// Writes a number in decimal.
pub fn decimal_text(n: u64) -> (text: String)
    ensures
        text@ == decimal(n as nat),
{
    let mut text = String::new();
    push_decimal(&mut text, n);
    text
}

/// The binary exponent of a count of at least one thousand, taken in thousands: the
/// largest `e` for which one thousand times two to the power `e` does not exceed the
/// count.
pub open spec fn binade(stars: nat) -> nat
    decreases stars,
{
    if stars < 2000 {
        0
    } else {
        1 + binade(stars / 2)
    }
}

/// The remainder modulo five of two to the power `50 - e`, for an exponent `e` of at
/// most fifty. It depends on `e` modulo four alone.
pub open spec fn scale_mod5(e: nat) -> nat {
    if e % 4 == 0 {
        4
    } else if e % 4 == 1 {
        2
    } else if e % 4 == 2 {
        1
    } else {
        3
    }
}

/// Whether the double-precision number nearest to a count's thousands lies above them,
/// for a count that is an odd multiple of fifty and no multiple of 250. Such a count
/// is `m / 20` thousands with `m` odd and prime to five; scaled to a 53-bit
/// significand this is `m * 2^(50 - e) / 5`, which rounds up exactly when the
/// numerator leaves a remainder of three or four.
pub open spec fn quotient_rounds_up(stars: nat) -> bool {
    ((stars / 50) % 5) * scale_mod5(binade(stars)) % 5 >= 3
}

/// The tenths of a thousand that the label of a count shows: the count's thousands to
/// one decimal place, as double-precision division and formatting give them. That is
/// the nearest tenth; a count midway between two tenths goes to the even one where its
/// thousands are an exact binary fraction, and elsewhere to the side on which the
/// nearest double lies.
pub open spec fn shown_tenths(stars: nat) -> nat {
    let below = stars / 100;
    let rest = stars % 100;
    if rest < 50 {
        below
    } else if rest > 50 {
        below + 1
    } else if stars % 250 == 0 {
        if below % 2 == 0 {
            below
        } else {
            below + 1
        }
    } else if quotient_rounds_up(stars) {
        below + 1
    } else {
        below
    }
}

/// The label of a star count: the bare number below one thousand, and from there on
/// the thousands with one decimal place and a `k`.
pub open spec fn star_label(stars: nat) -> Seq<char> {
    if stars < 1000 {
        decimal(stars)
    } else {
        decimal(shown_tenths(stars) / 10) + seq!['.'] + decimal(shown_tenths(stars) % 10) + seq![
            'k',
        ]
    }
}

fn binade_phase(stars: u32) -> (phase: u32)
    ensures
        phase == binade(stars as nat) % 4,
{
    let mut left: u32 = stars;
    let mut phase: u32 = 0;
    while left >= 2000
        invariant
            phase < 4,
            binade(stars as nat) % 4 == (phase + binade(left as nat)) % 4,
        decreases left,
    {
        left = left / 2;
        phase = (phase + 1) % 4;
    }
    phase
}

fn tenths_shown(stars: u32) -> (tenths: u32)
    ensures
        tenths == shown_tenths(stars as nat),
{
    let below: u32 = stars / 100;
    let rest: u32 = stars % 100;
    if rest < 50 {
        below
    } else if rest > 50 {
        below + 1
    } else if stars % 250 == 0 {
        if below % 2 == 0 {
            below
        } else {
            below + 1
        }
    } else {
        let phase = binade_phase(stars);
        let scale: u32 = if phase == 0 {
            4
        } else if phase == 1 {
            2
        } else if phase == 2 {
            1
        } else {
            3
        };
        if ((stars / 50) % 5) * scale % 5 >= 3 {
            below + 1
        } else {
            below
        }
    }
}

/// Formats a star count for display: `999` as `999`, `1000` as `1.0k`, `2500` as
/// `2.5k`.
pub fn format_stars(stars: u32) -> (label: String)
    ensures
        label@ == star_label(stars as nat),
{
    if stars >= 1000 {
        let tenths = tenths_shown(stars);
        let mut label = decimal_text((tenths / 10) as u64);
        proof {
            reveal_strlit(".");
            reveal_strlit("k");
        }
        label.append(".");
        label.append(digit_text((tenths % 10) as u64));
        label.append("k");
        label
    } else {
        decimal_text(stars as u64)
    }
}

/// The label of a number of merged pull requests: `1 PR` for one, and the number
/// followed by `PRs` for any other.
pub open spec fn pr_label_text(count: nat) -> Seq<char> {
    if count == 1 {
        seq!['1', ' ', 'P', 'R']
    } else {
        decimal(count) + seq![' ', 'P', 'R', 's']
    }
}

/// Formats a number of merged pull requests for display.
pub fn pr_label(count: u64) -> (label: String)
    ensures
        label@ == pr_label_text(count as nat),
{
    proof {
        reveal_strlit("1 PR");
        reveal_strlit(" PRs");
    }
    if count == 1 {
        String::from_str("1 PR")
    } else {
        let mut label = decimal_text(count);
        label.append(" PRs");
        label
    }
}

/// The address of a repository's page: the host's address followed by the repository's
/// full name.
pub open spec fn url_text(name: Seq<char>) -> Seq<char> {
    "https://github.com/"@ + name
}

/// Derives the address of a repository's page from its full name.
pub fn repo_url(name: &str) -> (url: String)
    ensures
        url@ == url_text(name@),
{
    let mut url = String::from_str("https://github.com/");
    url.append(name);
    url
}

} // verus!
