//! Decimal rendering of the counter value.
//!
//! The view shows the counter as its decimal string; `i32_to_string` is
//! that rendering, proved to produce exactly the mathematical decimal
//! image `dec_string` of the value: a minus sign for negative values,
//! then the digits most significant first, with no leading zeros.

use vstd::prelude::*;
use vstd::string::StringExecFns;

verus! {

/// The character for one decimal digit.
pub open spec fn digit_char(d: nat) -> char {
    if d == 0 {
        '0'
    } else if d == 1 {
        '1'
    } else if d == 2 {
        '2'
    } else if d == 3 {
        '3'
    } else if d == 4 {
        '4'
    } else if d == 5 {
        '5'
    } else if d == 6 {
        '6'
    } else if d == 7 {
        '7'
    } else if d == 8 {
        '8'
    } else {
        '9'
    }
}

/// The decimal digits of a natural number, most significant first.
pub open spec fn dec_digits(n: nat) -> Seq<char>
    decreases n,
{
    if n < 10 {
        seq![digit_char(n)]
    } else {
        dec_digits(n / 10) + seq![digit_char(n % 10)]
    }
}

/// The decimal string of an integer: a minus sign for negative values,
/// then the digits of its magnitude.
pub open spec fn dec_string(v: int) -> Seq<char> {
    if v < 0 {
        seq!['-'] + dec_digits((-v) as nat)
    } else {
        dec_digits(v as nat)
    }
}

/// The characters of a digit sequence read back to front.
pub open spec fn rev_digit_chars(digs: Seq<u64>) -> Seq<char> {
    Seq::new(digs.len(), |k: int| digit_char(digs[digs.len() - 1 - k] as nat))
}

/// One digit as a string slice.
fn digit_str(d: u64) -> (s: &'static str)
    requires
        d < 10,
    ensures
        s@ == seq![digit_char(d as nat)],
{
    let s: &'static str = if d == 0 {
        "0"
    } else if d == 1 {
        "1"
    } else if d == 2 {
        "2"
    } else if d == 3 {
        "3"
    } else if d == 4 {
        "4"
    } else if d == 5 {
        "5"
    } else if d == 6 {
        "6"
    } else if d == 7 {
        "7"
    } else if d == 8 {
        "8"
    } else {
        "9"
    };
    proof {
        reveal_strlit("0");
        reveal_strlit("1");
        reveal_strlit("2");
        reveal_strlit("3");
        reveal_strlit("4");
        reveal_strlit("5");
        reveal_strlit("6");
        reveal_strlit("7");
        reveal_strlit("8");
        reveal_strlit("9");
        assert(s@ =~= seq![digit_char(d as nat)]);
    }
    s
}

/// The decimal string of a counter value.
pub fn i32_to_string(v: i32) -> (s: String)
    ensures
        s@ == dec_string(v as int),
{
    if v == 0 {
        let s = String::from_str("0");
        proof {
            reveal_strlit("0");
            assert(s@ =~= dec_string(0));
        }
        return s;
    }
    let neg = v < 0;
    let mut n: u64 = if neg {
        (-(v as i64)) as u64
    } else {
        v as u64
    };
    let ghost n0 = n as nat;
    proof {
        assert(n0 == (if v < 0 { -(v as int) } else { v as int }));
    }
    let mut digs: Vec<u64> = Vec::new();
    while n > 0
        invariant
            forall|k: int| 0 <= k < digs@.len() ==> digs@[k] < 10,
            digs@.len() == 0 ==> n as nat == n0 && n > 0,
            digs@.len() > 0 ==> dec_digits(n0) == (if n > 0 {
                dec_digits(n as nat) + rev_digit_chars(digs@)
            } else {
                rev_digit_chars(digs@)
            }),
        decreases n,
    {
        let ghost n_before = n as nat;
        let ghost digs_before = digs@;
        let d = n % 10;
        digs.push(d);
        n = n / 10;
        proof {
            assert(rev_digit_chars(digs@) =~= seq![digit_char(d as nat)] + rev_digit_chars(
                digs_before,
            ));
            if n_before >= 10 {
                assert(dec_digits(n_before) == dec_digits(n_before / 10) + seq![
                    digit_char(n_before % 10),
                ]);
                assert(dec_digits(n_before) + rev_digit_chars(digs_before) =~= dec_digits(
                    n as nat,
                ) + rev_digit_chars(digs@));
            } else {
                assert(dec_digits(n_before) =~= seq![digit_char(d as nat)]);
                if digs_before.len() == 0 {
                    assert(dec_digits(n0) =~= rev_digit_chars(digs@));
                } else {
                    assert(dec_digits(n0) == dec_digits(n_before) + rev_digit_chars(digs_before));
                    assert(dec_digits(n0) =~= rev_digit_chars(digs@));
                }
            }
        }
    }
    let ghost sign: Seq<char> = if neg {
        seq!['-']
    } else {
        Seq::empty()
    };
    let mut s = if neg {
        String::from_str("-")
    } else {
        String::new()
    };
    proof {
        reveal_strlit("-");
        assert(s@ =~= sign);
    }
    let mut j: usize = digs.len();
    while j > 0
        invariant
            j <= digs@.len(),
            forall|k: int| 0 <= k < digs@.len() ==> digs@[k] < 10,
            dec_digits(n0) == rev_digit_chars(digs@),
            s@ == sign + Seq::new(
                (digs@.len() - j) as nat,
                |k: int| digit_char(digs@[digs@.len() - 1 - k] as nat),
            ),
        decreases j,
    {
        let ghost s_before = s@;
        j = j - 1;
        let ds = digit_str(digs[j]);
        s.append(ds);
        proof {
            assert(s@ =~= sign + Seq::new(
                (digs@.len() - j) as nat,
                |k: int| digit_char(digs@[digs@.len() - 1 - k] as nat),
            ));
        }
    }
    proof {
        assert(Seq::new(
            (digs@.len() - 0) as nat,
            |k: int| digit_char(digs@[digs@.len() - 1 - k] as nat),
        ) =~= rev_digit_chars(digs@));
        assert(s@ == sign + dec_digits(n0));
        assert(sign + dec_digits(n0) =~= dec_string(v as int));
    }
    s
}

} // verus!
