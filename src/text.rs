//! Rendering of numbers and addresses as text.
use vstd::prelude::*;

verus! {

/// The character of a decimal digit.
pub open spec fn digit_char(d: nat) -> char {
    if d == 0 {
        '0'
    } else if d == 1 {
        '1'
    } else if d == 2 {
        '2'
    } else if d == 3 {
        '3'
    } else if d == 4 {
        '4'
    } else if d == 5 {
        '5'
    } else if d == 6 {
        '6'
    } else if d == 7 {
        '7'
    } else if d == 8 {
        '8'
    } else {
        '9'
    }
}

/// The decimal form of `n`: no leading zeros, and "0" for zero.
pub open spec fn decimal(n: nat) -> Seq<char>
    decreases n,
{
    if n < 10 {
        seq![digit_char(n)]
    } else {
        decimal(n / 10).push(digit_char(n % 10))
    }
}

fn digit_str(d: u64) -> (r: &'static str)
    requires
        d < 10,
    ensures
        r@ == seq![digit_char(d as nat)],
{
    proof {
        reveal_strlit("0");
        reveal_strlit("1");
        reveal_strlit("2");
        reveal_strlit("3");
        reveal_strlit("4");
        reveal_strlit("5");
        reveal_strlit("6");
        reveal_strlit("7");
        reveal_strlit("8");
        reveal_strlit("9");
    }
    if d == 0 {
        "0"
    } else if d == 1 {
        "1"
    } else if d == 2 {
        "2"
    } else if d == 3 {
        "3"
    } else if d == 4 {
        "4"
    } else if d == 5 {
        "5"
    } else if d == 6 {
        "6"
    } else if d == 7 {
        "7"
    } else if d == 8 {
        "8"
    } else {
        "9"
    }
}

/// Appends the decimal form of `n` to `out`.
pub fn push_decimal(out: &mut String, n: u64)
    ensures
        final(out)@ == old(out)@ + decimal(n as nat),
    decreases n,
{
    if n < 10 {
        out.append(digit_str(n));
    } else {
        push_decimal(out, n / 10);
        out.append(digit_str(n % 10));
        proof {
            assert(decimal(n as nat) == decimal((n / 10) as nat).push(digit_char((n % 10) as nat)));
        }
    }
}

/// Four numbers written as `a.b.c.d`.
pub open spec fn dotted_quad(a: nat, b: nat, c: nat, d: nat) -> Seq<char> {
    decimal(a) + seq!['.'] + decimal(b) + seq!['.'] + decimal(c) + seq!['.'] + decimal(d)
}

/// Writes four octets in dotted-decimal form.
pub fn dotted(a: u8, b: u8, c: u8, d: u8) -> (r: String)
    ensures
        r@ == dotted_quad(a as nat, b as nat, c as nat, d as nat),
{
    proof {
        reveal_strlit(".");
    }
    let mut out = String::new();
    push_decimal(&mut out, a as u64);
    out.append(".");
    push_decimal(&mut out, b as u64);
    out.append(".");
    push_decimal(&mut out, c as u64);
    out.append(".");
    push_decimal(&mut out, d as u64);
    out
}

/// Port numbers in decimal, separated by a comma and a space.
pub open spec fn joined_ports(ports: Seq<u16>) -> Seq<char>
    decreases ports.len(),
{
    if ports.len() == 0 {
        seq![]
    } else if ports.len() == 1 {
        decimal(ports[0] as nat)
    } else {
        joined_ports(ports.drop_last()) + seq![',', ' '] + decimal(ports.last() as nat)
    }
}

/// Writes port numbers as a comma-separated list; no ports give an empty string.
pub fn join_ports(ports: &Vec<u16>) -> (r: String)
    ensures
        r@ == joined_ports(ports@),
{
    let mut out = String::new();
    let mut i: usize = 0;
    while i < ports.len()
        invariant
            i <= ports.len(),
            out@ == joined_ports(ports@.subrange(0, i as int)),
        decreases ports.len() - i,
    {
        let ghost before = out@;
        let ghost next = ports@.subrange(0, i + 1);
        proof {
            assert(next.drop_last() == ports@.subrange(0, i as int));
            assert(next.last() == ports@[i as int]);
        }
        if i > 0 {
            proof {
                reveal_strlit(", ");
            }
            out.append(", ");
            assert(out@ == before + seq![',', ' ']);
        }
        push_decimal(&mut out, ports[i] as u64);
        assert(out@ == joined_ports(next));
        i = i + 1;
    }
    proof {
        assert(ports@.subrange(0, ports.len() as int) == ports@);
    }
    out
}

} // verus!
