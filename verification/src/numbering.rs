//! Sequence numbers for caption overlays.
//!
//! The display number of a source photograph is the first maximal run of
//! ASCII digits in its base file name, kept verbatim (leading zeros and all).
//! A name without any digit falls back to the decimal form of the file's
//! 1-based position in the sorted enumeration.

use vstd::prelude::*;

verus! {

pub open spec fn spec_is_digit(c: char) -> bool {
    48 <= c as u32 && c as u32 <= 57
}

pub open spec fn digit_char(d: nat) -> char
    recommends
        d < 10,
{
    if d == 0 {
        '0'
    } else if d == 1 {
        '1'
    } else if d == 2 {
        '2'
    } else if d == 3 {
        '3'
    } else if d == 4 {
        '4'
    } else if d == 5 {
        '5'
    } else if d == 6 {
        '6'
    } else if d == 7 {
        '7'
    } else if d == 8 {
        '8'
    } else {
        '9'
    }
}

/// Decimal representation of a natural number, most significant digit first.
pub open spec fn dec_rep(n: nat) -> Seq<char>
    decreases n,
{
    if n < 10 {
        seq![digit_char(n)]
    } else {
        dec_rep(n / 10).push(digit_char(n % 10))
    }
}

pub open spec fn has_digit(s: Seq<char>) -> bool {
    exists|i: int| 0 <= i < s.len() && spec_is_digit(s[i])
}

/// Index of the first digit of `s` (or `s.len()` when there is none).
pub open spec fn first_digit_at(s: Seq<char>) -> int
    decreases s.len(),
{
    if s.len() == 0 {
        0
    } else if spec_is_digit(s[0]) {
        0
    } else {
        1 + first_digit_at(s.drop_first())
    }
}

/// First index at or after `i` that does not hold a digit.
pub open spec fn run_end_from(s: Seq<char>, i: int) -> int
    recommends
        0 <= i <= s.len(),
    decreases s.len() - i,
{
    if i < 0 || i >= s.len() || !spec_is_digit(s[i]) {
        i
    } else {
        run_end_from(s, i + 1)
    }
}

/// What `extract_number_from_filename` returns: the first maximal digit run
/// of the name, or the decimal form of the fallback position.
pub open spec fn extracted_number(s: Seq<char>, fallback: nat) -> Seq<char> {
    if has_digit(s) {
        s.subrange(first_digit_at(s), run_end_from(s, first_digit_at(s)))
    } else {
        dec_rep(fallback)
    }
}

proof fn lemma_first_digit_at(s: Seq<char>, i: int)
    requires
        0 <= i < s.len(),
        spec_is_digit(s[i]),
        forall|k: int| 0 <= k < i ==> !spec_is_digit(s[k]),
    ensures
        first_digit_at(s) == i,
    decreases i,
{
    if i == 0 {
    } else {
        assert(!spec_is_digit(s[0]));
        assert(forall|k: int| 0 <= k < i - 1 ==> s.drop_first()[k] == s[k + 1]);
        lemma_first_digit_at(s.drop_first(), i - 1);
    }
}

proof fn lemma_run_end_from(s: Seq<char>, i: int, j: int)
    requires
        0 <= i <= j <= s.len(),
        forall|k: int| i <= k < j ==> spec_is_digit(s[k]),
        j == s.len() || !spec_is_digit(s[j]),
    ensures
        run_end_from(s, i) == j,
    decreases j - i,
{
    if i == j {
    } else {
        lemma_run_end_from(s, i + 1, j);
    }
}

fn digit_str(d: u64) -> (r: &'static str)
    requires
        d < 10,
    ensures
        r@ =~= seq![digit_char(d as nat)],
{
    if d == 0 {
        proof { reveal_strlit("0"); }
        "0"
    } else if d == 1 {
        proof { reveal_strlit("1"); }
        "1"
    } else if d == 2 {
        proof { reveal_strlit("2"); }
        "2"
    } else if d == 3 {
        proof { reveal_strlit("3"); }
        "3"
    } else if d == 4 {
        proof { reveal_strlit("4"); }
        "4"
    } else if d == 5 {
        proof { reveal_strlit("5"); }
        "5"
    } else if d == 6 {
        proof { reveal_strlit("6"); }
        "6"
    } else if d == 7 {
        proof { reveal_strlit("7"); }
        "7"
    } else if d == 8 {
        proof { reveal_strlit("8"); }
        "8"
    } else {
        proof { reveal_strlit("9"); }
        "9"
    }
}

/// Decimal rendering of an unsigned integer.
pub fn u64_to_string(n: u64) -> (r: String)
    ensures
        r@ == dec_rep(n as nat),
    decreases n,
{
    if n < 10 {
        let r = digit_str(n).to_owned();
        proof {
            assert(r@ =~= dec_rep(n as nat));
        }
        r
    } else {
        let mut s = u64_to_string(n / 10);
        s.append(digit_str(n % 10));
        proof {
            assert(s@ =~= dec_rep(n as nat));
        }
        s
    }
}

/// First maximal run of ASCII digits in the base name, verbatim; the decimal
/// form of `fallback_id` when the name holds no digit at all.
pub fn extract_number_from_filename(filename: &str, fallback_id: u64) -> (r: String)
    ensures
        r@ == extracted_number(filename@, fallback_id as nat),
{
    let n = filename.unicode_len();
    let mut i: usize = 0;
    loop
        invariant
            0 <= i <= n,
            n == filename@.len(),
            forall|k: int| 0 <= k < i ==> !spec_is_digit(filename@[k]),
        ensures
            0 <= i <= n,
            forall|k: int| 0 <= k < i ==> !spec_is_digit(filename@[k]),
            i == n || spec_is_digit(filename@[i as int]),
        decreases n - i,
    {
        if i >= n {
            break;
        }
        let c = filename.get_char(i);
        if 48 <= c as u32 && c as u32 <= 57 {
            break;
        }
        i = i + 1;
    }
    if i == n {
        proof {
            assert(!has_digit(filename@));
        }
        u64_to_string(fallback_id)
    } else {
        proof {
            lemma_first_digit_at(filename@, i as int);
        }
        let mut j: usize = i;
        loop
            invariant
                i <= j <= n,
                n == filename@.len(),
                forall|k: int| i <= k < j ==> spec_is_digit(filename@[k]),
            ensures
                i <= j <= n,
                forall|k: int| i <= k < j ==> spec_is_digit(filename@[k]),
                j == n || !spec_is_digit(filename@[j as int]),
            decreases n - j,
        {
            if j >= n {
                break;
            }
            let c = filename.get_char(j);
            if !(48 <= c as u32 && c as u32 <= 57) {
                break;
            }
            j = j + 1;
        }
        proof {
            lemma_run_end_from(filename@, i as int, j as int);
        }
        filename.substring_char(i, j).to_owned()
    }
}

} // verus!
