//! The catalog stub written for a newly scraped model.
use vstd::prelude::*;
use crate::catalog::Nanos;
use crate::scraped::ScrapedModel;
use crate::health::digit_char;

verus! {

/// The decimal digits of `n`, without leading zeros.
pub open spec fn dec_text(n: nat) -> Seq<char>
    decreases n,
{
    if n < 10 {
        seq![digit_char(n as int)]
    } else {
        dec_text(n / 10).push(digit_char((n % 10) as int))
    }
}

/// The last `k` decimal digits of `n`, zero-padded.
pub open spec fn padded_digits(n: nat, k: nat) -> Seq<char>
    decreases k,
{
    if k == 0 {
        Seq::empty()
    } else {
        padded_digits(n / 10, (k - 1) as nat).push(digit_char((n % 10) as int))
    }
}

pub open spec fn strip_zeros(s: Seq<char>) -> Seq<char>
    decreases s.len(),
{
    if s.len() > 0 && s.last() == '0' {
        strip_zeros(s.drop_last())
    } else {
        s
    }
}

pub open spec fn abs_int(n: int) -> nat {
    if n < 0 {
        (0 - n) as nat
    } else {
        n as nat
    }
}

/// A price of `n` billionths written in decimal: the whole part, then the
/// fraction without trailing zeros when there is one (`0.0065`, `3`, `12.5`).
pub open spec fn price_text(n: int) -> Seq<char> {
    let a = abs_int(n);
    let whole = dec_text(a / 1_000_000_000);
    let frac = a % 1_000_000_000;
    let sign = if n < 0 {
        seq!['-']
    } else {
        Seq::empty()
    };
    if frac == 0 {
        sign + whole
    } else {
        sign + whole + seq!['.'] + strip_zeros(padded_digits(frac, 9))
    }
}

fn digit(d: u64) -> (c: char)
    requires
        d < 10,
    ensures
        c == digit_char(d as int),
{
    let b: u8 = 48 + (d as u8);
    b as char
}

fn push_dec(out: &mut Vec<char>, n: u64)
    ensures
        final(out)@ == old(out)@ + dec_text(n as nat),
    decreases n,
{
    if n < 10 {
        out.push(digit(n));
        proof {
            assert(final(out)@ =~= old(out)@ + dec_text(n as nat));
        }
    } else {
        push_dec(out, n / 10);
        out.push(digit(n % 10));
        proof {
            assert(out@ =~= old(out)@ + dec_text(n as nat));
        }
    }
}

fn push_padded(out: &mut Vec<char>, n: u64, k: u64)
    ensures
        final(out)@ == old(out)@ + padded_digits(n as nat, k as nat),
    decreases k,
{
    if k > 0 {
        push_padded(out, n / 10, k - 1);
        out.push(digit(n % 10));
        proof {
            assert(out@ =~= old(out)@ + padded_digits(n as nat, k as nat));
        }
    } else {
        proof {
            assert(out@ =~= old(out)@ + padded_digits(n as nat, k as nat));
        }
    }
}

/// `n` in decimal.
pub fn u64_text(n: u64) -> (r: String)
    ensures
        r@ == dec_text(n as nat),
{
    let mut v: Vec<char> = Vec::new();
    push_dec(&mut v, n);
    proof {
        assert(v@ =~= dec_text(n as nat));
    }
    crate::text::from_chars(v)
}

/// A price in decimal; see `price_text`.
pub fn format_price(n: Nanos) -> (r: String)
    ensures
        r@ == price_text(n as int),
{
    let a: u64 = if n < 0 {
        (0 - (n as i128)) as u64
    } else {
        n as u64
    };
    let mut v: Vec<char> = Vec::new();
    if n < 0 {
        v.push('-');
    }
    push_dec(&mut v, a / 1_000_000_000);
    let frac = a % 1_000_000_000;
    if frac != 0 {
        v.push('.');
        let mut f: Vec<char> = Vec::new();
        push_padded(&mut f, frac, 9);
        let ghost full = f@;
        while f.len() > 0 && f[f.len() - 1] == '0'
            invariant
                strip_zeros(f@) == strip_zeros(full),
            decreases f.len(),
        {
            let ghost before = f@;
            f.pop();
            proof {
                assert(f@ =~= before.drop_last());
            }
        }
        let ghost head = v@;
        v.append(&mut f);
        proof {
            assert(abs_int(n as int) == a as nat);
            assert(strip_zeros(f@) == f@) by {
                assert(f@.len() == 0 || f@.last() != '0');
            }
        }
    }
    proof {
        assert(abs_int(n as int) == a as nat);
        assert(v@ =~= price_text(n as int));
    }
    crate::text::from_chars(v)
}


/// The name shown for a scraped model: its display name, else its id.
pub open spec fn display_of(m: ScrapedModel) -> Seq<char> {
    match m.display_name {
        Some(d) => d@,
        None => m.id@,
    }
}

pub open spec fn opt_count(v: Option<u64>) -> nat {
    match v {
        Some(x) => x as nat,
        None => 0,
    }
}

pub open spec fn opt_price(v: Option<Nanos>) -> int {
    match v {
        Some(x) => x as int,
        None => 0,
    }
}

/// The catalog file for a newly scraped model, last verified on `today`:
/// an active text model with no capabilities, what the page gave for its
/// name, limits and prices (zero where it gave nothing), and the page as
/// its source.
pub open spec fn stub_yaml(m: ScrapedModel, today: Seq<char>) -> Seq<char> {
    "id: "@ + m.id@ + "\nprovider: "@ + m.provider@ + "\ndisplay_name: "@ + display_of(m)
        + "\nstatus: active\nrelease_date: null\ndeprecation_date: null\nsunset_date: null\nreplacement: null\ncontext_window: "@
        + dec_text(opt_count(m.context_window)) + "\nmax_output_tokens: "@ + dec_text(
        opt_count(m.max_output_tokens),
    )
        + "\nmodalities:\n  input: [text]\n  output: [text]\ncapabilities:\n  tools: false\n  vision: false\n  streaming: true\n  json_mode: false\n  prompt_caching: false\n  thinking: false\nparameters:\n  supported: []\n  rejected: []\n  deprecated_for_this_model: []\npricing:\n  currency: USD\n  input: "@
        + price_text(opt_price(m.input_price)) + "\n  output: "@ + price_text(opt_price(m.output_price))
        + "\nlast_verified: "@ + today
        + "\nconfidence: scraped\nendpoint_family: unknown\nsources:\n  - url: "@ + m.source_url@
        + "\n    last_verified: "@ + today + "\n"@
}

/// The catalog file for a newly scraped model; see `stub_yaml`.
pub fn generate_yaml(model: &ScrapedModel, today: &str) -> (r: String)
    ensures
        r@ == stub_yaml(*model, today@),
{
    let display: &str = match &model.display_name {
        Some(d) => d.as_str(),
        None => model.id.as_str(),
    };
    let context = u64_text(match model.context_window {
        Some(x) => x,
        None => 0,
    });
    let max_out = u64_text(match model.max_output_tokens {
        Some(x) => x,
        None => 0,
    });
    let input = format_price(match model.input_price {
        Some(x) => x,
        None => 0,
    });
    let output = format_price(match model.output_price {
        Some(x) => x,
        None => 0,
    });
    let mut out = "id: ".to_owned();
    out.append(model.id.as_str());
    out.append("\nprovider: ");
    out.append(model.provider.as_str());
    out.append("\ndisplay_name: ");
    out.append(display);
    out.append(
        "\nstatus: active\nrelease_date: null\ndeprecation_date: null\nsunset_date: null\nreplacement: null\ncontext_window: ",
    );
    out.append(context.as_str());
    out.append("\nmax_output_tokens: ");
    out.append(max_out.as_str());
    out.append(
        "\nmodalities:\n  input: [text]\n  output: [text]\ncapabilities:\n  tools: false\n  vision: false\n  streaming: true\n  json_mode: false\n  prompt_caching: false\n  thinking: false\nparameters:\n  supported: []\n  rejected: []\n  deprecated_for_this_model: []\npricing:\n  currency: USD\n  input: ",
    );
    out.append(input.as_str());
    out.append("\n  output: ");
    out.append(output.as_str());
    out.append("\nlast_verified: ");
    out.append(today);
    out.append("\nconfidence: scraped\nendpoint_family: unknown\nsources:\n  - url: ");
    out.append(model.source_url.as_str());
    out.append("\n    last_verified: ");
    out.append(today);
    out.append("\n");
    proof {
        assert(display@ == display_of(*model));
    }
    out
}

} // verus!
