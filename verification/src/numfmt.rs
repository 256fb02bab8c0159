//! Decimal rendering of counters with thousands separators.

use vstd::prelude::*;
use crate::chars::chars_to_string;

verus! {

pub open spec fn digit_char(d: int) -> char {
    (('0' as u32) + d as u32) as char
}

/// The decimal digits of `n`, most significant first.
pub open spec fn spec_decimal(n: int) -> Seq<char>
    decreases n,
{
    if n < 10 {
        seq![digit_char(if n >= 0 {
            n
        } else {
            0
        })]
    } else {
        spec_decimal(n / 10).push(digit_char(n % 10))
    }
}

/// The digits with a comma before every position a multiple of three from
/// the right.
pub open spec fn spec_grouped(ds: Seq<char>, i: int) -> Seq<char>
    decreases ds.len() - i,
{
    if i < 0 || i >= ds.len() {
        Seq::empty()
    } else {
        (if i > 0 && (ds.len() - i) % 3 == 0 {
            seq![',']
        } else {
            Seq::empty()
        }) + seq![ds[i]] + spec_grouped(ds, i + 1)
    }
}

/// What `format_number` computes: the decimal digits of `n`, grouped in
/// threes by commas.
pub open spec fn spec_format_number(n: int) -> Seq<char> {
    spec_grouped(spec_decimal(n), 0)
}

fn digit_of(d: u64) -> (r: char)
    requires
        d < 10,
    ensures
        r == digit_char(d as int),
{
    match d {
        0 => '0',
        1 => '1',
        2 => '2',
        3 => '3',
        4 => '4',
        5 => '5',
        6 => '6',
        7 => '7',
        8 => '8',
        _ => '9',
    }
}

/// Render a count with thousands separators.
pub fn format_number(n: u64) -> (r: String)
    ensures
        r@ == spec_format_number(n as int),
{
    let mut digs: Vec<char> = Vec::new();
    let mut m: u64 = n;
    proof {
        assert(digs@.reverse() =~= Seq::<char>::empty());
    }
    let mut done = false;
    while !done
        invariant
            m <= n,
            !done ==> spec_decimal(n as int) == (if m < 10 {
                seq![digit_char(m as int)] + digs@.reverse()
            } else {
                spec_decimal(m as int) + digs@.reverse()
            }),
            done ==> spec_decimal(n as int) == digs@.reverse(),
        decreases m + 1, (if done {
            0int
        } else {
            1int
        }),
    {
        let ghost before = digs@;
        let d = digit_of(m % 10);
        digs.push(d);
        proof {
            assert(digs@.reverse() =~= seq![d] + before.reverse());
        }
        if m < 10 {
            done = true;
            proof {
                assert(seq![digit_char(m as int)] + before.reverse() =~= digs@.reverse());
            }
        } else {
            proof {
                assert(spec_decimal(m as int) == spec_decimal(m as int / 10).push(
                    digit_char(m as int % 10),
                ));
                assert(spec_decimal(m as int) + before.reverse() =~= (if m / 10 < 10 {
                    seq![digit_char((m / 10) as int)] + digs@.reverse()
                } else {
                    spec_decimal((m / 10) as int) + digs@.reverse()
                }));
            }
            m = m / 10;
        }
    }
    let mut out: Vec<char> = Vec::new();
    let mut i: usize = 0;
    let k = digs.len();
    let mut msd: Vec<char> = Vec::new();
    let mut j: usize = k;
    while j > 0
        invariant
            j <= k,
            k == digs@.len(),
            msd@ == digs@.reverse().take((k - j) as int),
        decreases j,
    {
        j = j - 1;
        msd.push(digs[j]);
        proof {
            assert(digs@.reverse()[(k - j - 1) as int] == digs@[j as int]);
            assert(msd@ =~= digs@.reverse().take((k - j) as int));
        }
    }
    proof {
        assert(msd@ =~= digs@.reverse());
    }
    while i < msd.len()
        invariant
            i <= msd@.len(),
            msd@ == spec_decimal(n as int),
            spec_format_number(n as int) == out@ + spec_grouped(msd@, i as int),
        decreases msd@.len() - i,
    {
        if i > 0 && (msd.len() - i) % 3 == 0 {
            out.push(',');
        }
        out.push(msd[i]);
        proof {
            assert(out@ + spec_grouped(msd@, i + 1 as int) =~= spec_format_number(n as int));
        }
        i = i + 1;
    }
    proof {
        assert(spec_grouped(msd@, msd@.len() as int) =~= Seq::<char>::empty());
        assert(out@ =~= spec_format_number(n as int));
    }
    chars_to_string(&out)
}

} // verus!
