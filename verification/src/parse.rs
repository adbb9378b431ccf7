//! Ingestion of working-directory reports.
//!
//! A report's payload holds exactly two space-separated, quote-delimited
//! tokens: a pane id and the absolute path open in that pane. The first and
//! last character of each token are delimiters and are stripped before
//! interpretation; the first token must then read as an unsigned 32-bit
//! integer.

use vstd::prelude::*;

verus! {

/// The number of spaces in `s`.
pub open spec fn space_count(s: Seq<char>) -> nat
    decreases s.len(),
{
    if s.len() == 0 {
        0
    } else {
        space_count(s.drop_last()) + if s.last() == ' ' {
            1nat
        } else {
            0nat
        }
    }
}

/// `t` with its first and last character removed; empty when `t` has fewer
/// than two characters.
pub open spec fn strip_ends(t: Seq<char>) -> Seq<char> {
    if t.len() < 2 {
        Seq::empty()
    } else {
        t.subrange(1, t.len() - 1)
    }
}

pub open spec fn is_digit(c: char) -> bool {
    48 <= c as u32 && c as u32 <= 57
}

pub open spec fn digit_val(c: char) -> nat {
    (c as u32 - 48) as nat
}

pub open spec fn all_digits(s: Seq<char>) -> bool {
    forall|i: int| 0 <= i < s.len() ==> is_digit(s[i])
}

/// The value of a digit sequence read in decimal.
pub open spec fn digits_val(s: Seq<char>) -> nat
    decreases s.len(),
{
    if s.len() == 0 {
        0
    } else {
        digits_val(s.drop_last()) * 10 + digit_val(s.last())
    }
}

/// What `str::parse::<u32>` accepts: an optional leading `'+'`, then one or
/// more decimal digits whose value fits in 32 bits.
pub open spec fn spec_parse_u32(s: Seq<char>) -> Option<u32> {
    let body = if s.len() > 0 && s[0] == '+' {
        s.drop_first()
    } else {
        s
    };
    if body.len() > 0 && all_digits(body) && digits_val(body) <= u32::MAX {
        Some(digits_val(body) as u32)
    } else {
        None
    }
}

/// The parse of a payload: `None` unless it splits on a single space into two
/// tokens whose first, stripped of its delimiters, reads as a pane id; the
/// second token, stripped likewise, is the reported path.
pub open spec fn spec_parse_payload(s: Seq<char>) -> Option<(u32, Seq<char>)> {
    if space_count(s) == 1 {
        let k = choose|k: int| 0 <= k < s.len() && s[k] == ' ';
        match spec_parse_u32(strip_ends(s.subrange(0, k))) {
            Some(id) => Some((id, strip_ends(s.subrange(k + 1, s.len() as int)))),
            None => None,
        }
    } else {
        None
    }
}

proof fn lemma_space_at_least_one(s: Seq<char>, k: int)
    requires
        0 <= k < s.len(),
        s[k] == ' ',
    ensures
        space_count(s) >= 1,
    decreases s.len(),
{
    if k < s.len() - 1 {
        lemma_space_at_least_one(s.drop_last(), k);
    }
}

proof fn lemma_space_at_least_two(s: Seq<char>, k1: int, k2: int)
    requires
        0 <= k1 < k2 < s.len(),
        s[k1] == ' ',
        s[k2] == ' ',
    ensures
        space_count(s) >= 2,
    decreases s.len(),
{
    if k2 == s.len() - 1 {
        lemma_space_at_least_one(s.drop_last(), k1);
    } else {
        lemma_space_at_least_two(s.drop_last(), k1, k2);
    }
}

/// With exactly one space in `s`, any space index is the chosen one.
proof fn lemma_single_space(s: Seq<char>, k: int)
    requires
        space_count(s) == 1,
        0 <= k < s.len(),
        s[k] == ' ',
    ensures
        k == choose|t: int| 0 <= t < s.len() && s[t] == ' ',
{
    let t = choose|t: int| 0 <= t < s.len() && s[t] == ' ';
    assert(0 <= t < s.len() && s[t] == ' ');
    if t < k {
        lemma_space_at_least_two(s, t, k);
    } else if k < t {
        lemma_space_at_least_two(s, k, t);
    }
}

/// `t@` with its first and last character removed.
pub fn strip_ends_x(t: &str) -> (r: String)
    ensures
        r@ == strip_ends(t@),
{
    let n = t.unicode_len();
    if n < 2 {
        let r = String::new();
        proof {
            assert(r@ =~= strip_ends(t@));
        }
        r
    } else {
        t.substring_char(1, n - 1).to_owned()
    }
}

proof fn lemma_digits_val_grows(s: Seq<char>, j: int, n: int)
    requires
        0 <= j <= n <= s.len(),
    ensures
        digits_val(s.subrange(0, n)) >= digits_val(s.subrange(0, j)),
    decreases n - j,
{
    if j < n {
        lemma_digits_val_grows(s, j + 1, n);
        let a = s.subrange(0, j);
        let b = s.subrange(0, j + 1);
        assert(b.drop_last() =~= a);
        assert(digits_val(b) == digits_val(a) * 10 + digit_val(b.last()));
        assert(digits_val(a) * 10 >= digits_val(a));
    }
}

/// Parse an unsigned 32-bit integer as `str::parse::<u32>` does.
#[verifier::loop_isolation(false)]
pub fn parse_u32_x(s: &str) -> (r: Option<u32>)
    ensures
        r == spec_parse_u32(s@),
{
    let n = s.unicode_len();
    let mut i: usize = 0;
    if n > 0 && s.get_char(0) == '+' {
        i = 1;
    }
    let ghost body = if s@.len() > 0 && s@[0] == '+' {
        s@.drop_first()
    } else {
        s@
    };
    proof {
        assert(body =~= s@.subrange(i as int, n as int));
    }
    if i == n {
        return None;
    }
    let mut val: u32 = 0;
    let mut j = i;
    while j < n
        invariant
            i <= j <= n,
            all_digits(s@.subrange(i as int, j as int)),
            val == digits_val(s@.subrange(i as int, j as int)),
        decreases n - j,
    {
        let c = s.get_char(j);
        let u = c as u32;
        if u < 48 || u > 57 {
            proof {
                assert(body[j - i] == s@[j as int]);
                assert(!is_digit(body[j - i]));
            }
            return None;
        }
        let d = u - 48;
        let big: u64 = val as u64 * 10 + d as u64;
        proof {
            let pre = s@.subrange(i as int, j as int);
            let pre2 = s@.subrange(i as int, j + 1);
            assert(pre2.drop_last() =~= pre);
            assert(digits_val(pre2) == digits_val(pre) * 10 + digit_val(s@[j as int]));
        }
        if big > u32::MAX as u64 {
            proof {
                let whole = s@.subrange(i as int, n as int);
                lemma_digits_val_grows(body, j + 1 - i, n - i);
                assert(body.subrange(0, j + 1 - i) =~= s@.subrange(i as int, j + 1));
                assert(body.subrange(0, n - i) =~= body);
                assert(digits_val(body) > u32::MAX);
            }
            return None;
        }
        val = big as u32;
        j += 1;
    }
    proof {
        assert(s@.subrange(i as int, n as int) == body);
    }
    Some(val)
}

/// Parse a payload into a pane id and a path.
#[verifier::loop_isolation(false)]
pub fn parse_payload(s: &str) -> (r: Option<(u32, String)>)
    ensures
        match (r, spec_parse_payload(s@)) {
            (Some((id, p)), Some(t)) => id == t.0 && p@ == t.1,
            (None, None) => true,
            _ => false,
        },
{
    let n = s.unicode_len();
    let mut spaces: usize = 0;
    let mut k: usize = 0;
    let mut j: usize = 0;
    proof {
        assert(s@.subrange(0, 0) =~= Seq::<char>::empty());
    }
    while j < n
        invariant
            0 <= j <= n,
            spaces == space_count(s@.subrange(0, j as int)),
            spaces <= j,
            spaces >= 1 ==> (k < j && s@[k as int] == ' '),
        decreases n - j,
    {
        proof {
            assert(s@.subrange(0, j + 1).drop_last() =~= s@.subrange(0, j as int));
        }
        if s.get_char(j) == ' ' {
            if spaces == 0 {
                k = j;
            }
            spaces += 1;
        }
        j += 1;
    }
    proof {
        assert(s@.subrange(0, n as int) =~= s@);
    }
    if spaces != 1 {
        return None;
    }
    proof {
        lemma_single_space(s@, k as int);
    }
    let t1 = strip_ends_x(s.substring_char(0, k));
    match parse_u32_x(t1.as_str()) {
        None => None,
        Some(id) => {
            let t2 = strip_ends_x(s.substring_char(k + 1, n));
            Some((id, t2))
        },
    }
}

} // verus!
