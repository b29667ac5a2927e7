//! Small verified text utilities: character-wise string comparison, path
//! prefix stripping, and decimal formatting of integers.

use vstd::prelude::*;
use vstd::string::{StrSliceExecFns, StringExecFns};

verus! {

/// Character-wise equality of two string slices.
pub fn str_eq(a: &str, b: &str) -> (r: bool)
    ensures
        r == (a@ == b@),
{
    let alen = a.unicode_len();
    let blen = b.unicode_len();
    if alen != blen {
        return false;
    }
    let mut i: usize = 0;
    while i < alen
        invariant
            alen == a@.len(),
            blen == b@.len(),
            alen == blen,
            i <= alen,
            forall|j: int| 0 <= j < i ==> a@[j] == b@[j],
        decreases alen - i,
    {
        if a.get_char(i) != b.get_char(i) {
            return false;
        }
        i += 1;
    }
    proof {
        assert(a@ =~= b@);
    }
    true
}

/// The display name of a collected file: its path relative to the base
/// directory, or the full path when the base is not a proper prefix.
pub open spec fn spec_relative_name(path: Seq<char>, base: Seq<char>) -> Seq<char> {
    if path.len() > base.len() + 1 && path.take(base.len() as int) == base && path[base.len() as int]
        == '/' {
        path.skip(base.len() as int + 1)
    } else {
        path
    }
}

/// Strips `base` followed by a path separator from the front of `path`;
/// falls back to the whole path when it does not start that way.
pub fn relative_name(path: &str, base: &str) -> (r: String)
    ensures
        r@ == spec_relative_name(path@, base@),
{
    let plen = path.unicode_len();
    let blen = base.unicode_len();
    if plen == 0 || blen >= plen - 1 {
        return path.to_owned();
    }
    if path.get_char(blen) != '/' {
        return path.to_owned();
    }
    let mut i: usize = 0;
    while i < blen
        invariant
            plen == path@.len(),
            blen == base@.len(),
            plen > blen + 1,
            i <= blen,
            forall|j: int| 0 <= j < i ==> path@[j] == base@[j],
        decreases blen - i,
    {
        if path.get_char(i) != base.get_char(i) {
            proof {
                assert(path@.take(blen as int) != base@) by {
                    assert(path@.take(blen as int)[i as int] != base@[i as int]);
                }
            }
            return path.to_owned();
        }
        i += 1;
    }
    proof {
        assert(path@.take(blen as int) =~= base@);
    }
    let stripped = path.substring_char(blen + 1, plen);
    stripped.to_owned()
}

/// The decimal digit character for a value below ten.
pub open spec fn spec_digit(d: int) -> char {
    if d == 0 {
        '0'
    } else if d == 1 {
        '1'
    } else if d == 2 {
        '2'
    } else if d == 3 {
        '3'
    } else if d == 4 {
        '4'
    } else if d == 5 {
        '5'
    } else if d == 6 {
        '6'
    } else if d == 7 {
        '7'
    } else if d == 8 {
        '8'
    } else {
        '9'
    }
}

/// The decimal representation of a non-negative integer, most significant
/// digit first.
pub open spec fn spec_decimal(n: int) -> Seq<char>
    decreases n,
{
    if n < 10 {
        seq![spec_digit(n)]
    } else {
        spec_decimal(n / 10).push(spec_digit(n % 10))
    }
}

/// The decimal representation of a possibly negative integer.
pub open spec fn spec_decimal_signed(n: int) -> Seq<char> {
    if n < 0 {
        seq!['-'] + spec_decimal(-n)
    } else {
        spec_decimal(n)
    }
}

fn digit_str(d: u32) -> (r: &'static str)
    requires
        d < 10,
    ensures
        r@ =~= seq![spec_digit(d as int)],
{
    proof {
        reveal_strlit("0");
        reveal_strlit("1");
        reveal_strlit("2");
        reveal_strlit("3");
        reveal_strlit("4");
        reveal_strlit("5");
        reveal_strlit("6");
        reveal_strlit("7");
        reveal_strlit("8");
        reveal_strlit("9");
    }
    match d {
        0 => "0",
        1 => "1",
        2 => "2",
        3 => "3",
        4 => "4",
        5 => "5",
        6 => "6",
        7 => "7",
        8 => "8",
        _ => "9",
    }
}

/// The digits of a little-endian digit vector, rendered most significant
/// digit first.
spec fn spec_render_le(v: Seq<u32>) -> Seq<char>
    decreases v.len(),
{
    if v.len() == 0 {
        Seq::empty()
    } else {
        seq![spec_digit(v.last() as int)] + spec_render_le(v.drop_last())
    }
}

proof fn lemma_render_le_index(v: Seq<u32>)
    ensures
        spec_render_le(v).len() == v.len(),
        forall|k: int|
            0 <= k < v.len() ==> spec_render_le(v)[k] == spec_digit(v[v.len() - 1 - k] as int),
    decreases v.len(),
{
    if v.len() > 0 {
        lemma_render_le_index(v.drop_last());
    }
}

/// Formats a `u32` in decimal.
pub fn u32_to_string(n: u32) -> (r: String)
    ensures
        r@ == spec_decimal(n as int),
{
    let mut digits: Vec<u32> = Vec::new();
    let mut m = n;
    let first = m % 10;
    digits.push(first);
    m = m / 10;
    proof {
        assert(spec_render_le(Seq::<u32>::empty()) == Seq::<char>::empty());
        assert(digits@.drop_last() =~= Seq::<u32>::empty());
        assert(spec_render_le(digits@) =~= seq![spec_digit(first as int)]);
        if m > 0 {
            assert(spec_decimal(n as int) =~= spec_decimal(m as int) + spec_render_le(digits@));
        } else {
            assert(spec_decimal(n as int) =~= spec_render_le(digits@));
        }
    }
    while m > 0
        invariant
            digits@.len() > 0,
            forall|k: int| 0 <= k < digits@.len() ==> digits@[k] < 10,
            m > 0 ==> spec_decimal(n as int) == spec_decimal(m as int) + spec_render_le(digits@),
            m == 0 ==> spec_decimal(n as int) == spec_render_le(digits@),
        decreases m,
    {
        let ghost pre = digits@;
        let d = m % 10;
        digits.push(d);
        proof {
            assert(digits@.drop_last() =~= pre);
            assert(spec_render_le(digits@) =~= seq![spec_digit(d as int)] + spec_render_le(pre));
        }
        m = m / 10;
        proof {
            if m > 0 {
                assert(spec_decimal(n as int) =~= spec_decimal(m as int) + spec_render_le(digits@));
            } else {
                assert(spec_decimal(n as int) =~= spec_render_le(digits@));
            }
        }
    }
    let ghost total = digits@.len() as int;
    proof {
        lemma_render_le_index(digits@);
    }
    let mut s = String::new();
    let mut i = digits.len();
    while i > 0
        invariant
            digits@.len() == total,
            spec_decimal(n as int) == spec_render_le(digits@),
            spec_render_le(digits@).len() == total,
            forall|k: int|
                0 <= k < total ==> spec_render_le(digits@)[k] == spec_digit(
                    digits@[total - 1 - k] as int,
                ),
            forall|k: int| 0 <= k < digits@.len() ==> digits@[k] < 10,
            i <= total,
            s@.len() == total - i,
            forall|k: int| 0 <= k < s@.len() ==> s@[k] == spec_render_le(digits@)[k],
        decreases i,
    {
        i -= 1;
        let part = digit_str(digits[i]);
        s.append(part);
    }
    proof {
        assert(s@ =~= spec_render_le(digits@));
    }
    s
}

/// Formats an `i32` in decimal, with a leading minus sign when negative.
pub fn i32_to_string(n: i32) -> (r: String)
    ensures
        r@ == spec_decimal_signed(n as int),
{
    if n >= 0 {
        u32_to_string(n as u32)
    } else {
        let wide: i64 = -(n as i64);
        let mut s = String::from_str("-");
        proof {
            reveal_strlit("-");
            assert(s@ =~= seq!['-']);
        }
        let rest = u32_to_string(wide as u32);
        s.append(rest.as_str());
        proof {
            assert(s@ =~= seq!['-'] + spec_decimal(-(n as int)));
        }
        s
    }
}

} // verus!
