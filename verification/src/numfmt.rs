use vstd::prelude::*;
use vstd::string::*;

verus! {

/// The decimal digit character for `d` (meaningful for `0 <= d < 10`).
pub open spec fn digit_char(d: int) -> char {
    "0123456789"@[d]
}

/// The decimal digits of `n`, most significant first, no leading zeros
/// (meaningful for `n >= 0`).
pub open spec fn dec_digits(n: int) -> Seq<char>
    decreases n,
{
    if n < 10 {
        seq![digit_char(n)]
    } else {
        dec_digits(n / 10) + seq![digit_char(n % 10)]
    }
}

pub proof fn lemma_dec_digits_len(n: int)
    requires
        n >= 0,
    ensures
        1 <= dec_digits(n).len(),
    decreases n,
{
    if n >= 10 {
        lemma_dec_digits_len(n / 10);
    }
}

/// Renders `n` in decimal.
pub fn u64_to_string(n: u64) -> (r: String)
    ensures
        r@ == dec_digits(n as int),
    decreases n,
{
    let digits = "0123456789";
    proof {
        reveal_strlit("0123456789");
    }
    if n < 10 {
        let d = digits.substring_char(n as usize, n as usize + 1);
        proof {
            assert(d@ =~= seq![digit_char(n as int)]);
        }
        String::from_str(d)
    } else {
        let pre = u64_to_string(n / 10);
        let m = n % 10;
        let d = digits.substring_char(m as usize, m as usize + 1);
        proof {
            assert(d@ =~= seq![digit_char(n as int % 10)]);
        }
        pre.concat(d)
    }
}

} // verus!
