//! Verified predicates over text: equality, prefix, suffix and substring
//! relations on `&str`, stated over the character-sequence views.

use vstd::prelude::*;

verus! {

/// `p` occurs as a contiguous run of characters somewhere in `s`.
pub open spec fn text_contains(s: Seq<char>, p: Seq<char>) -> bool {
    exists|k: int| 0 <= k <= s.len() - p.len() && p == #[trigger] s.subrange(k, k + p.len())
}

/// Character-for-character equality of two string slices.
pub fn str_eq(a: &str, b: &str) -> (r: bool)
    ensures
        r == (a@ == b@),
{
    let oa = a.to_owned();
    let ob = b.to_owned();
    oa == ob
}

/// Does `s` start with `p`, by characters?
pub fn str_starts_with(s: &str, p: &str) -> (r: bool)
    ensures
        r == p@.is_prefix_of(s@),
{
    let sl = s.unicode_len();
    let pl = p.unicode_len();
    if pl > sl {
        return false;
    }
    let mut i: usize = 0;
    while i < pl
        invariant
            0 <= i <= pl,
            pl == p@.len(),
            sl == s@.len(),
            pl <= sl,
            forall|j: int| 0 <= j < i ==> s@[j] == p@[j],
        decreases pl - i,
    {
        if s.get_char(i) != p.get_char(i) {
            assert(!p@.is_prefix_of(s@)) by {
                assert(s@.subrange(0, pl as int)[i as int] == s@[i as int]);
            }
            return false;
        }
        i += 1;
    }
    assert(p@ =~= s@.subrange(0, pl as int));
    true
}

/// Does `s` end with `p`, by characters?
pub fn str_ends_with(s: &str, p: &str) -> (r: bool)
    ensures
        r == p@.is_suffix_of(s@),
{
    let sl = s.unicode_len();
    let pl = p.unicode_len();
    if pl > sl {
        return false;
    }
    let off = sl - pl;
    let mut i: usize = 0;
    while i < pl
        invariant
            0 <= i <= pl,
            pl == p@.len(),
            sl == s@.len(),
            pl <= sl,
            off == sl - pl,
            forall|j: int| 0 <= j < i ==> s@[off + j] == p@[j],
        decreases pl - i,
    {
        if s.get_char(off + i) != p.get_char(i) {
            assert(!p@.is_suffix_of(s@)) by {
                assert(s@.subrange(off as int, sl as int)[i as int] == s@[off + i]);
            }
            return false;
        }
        i += 1;
    }
    assert(p@ =~= s@.subrange(off as int, sl as int));
    true
}

/// Does `p` occur anywhere in `s`, by characters?
pub fn str_contains(s: &str, p: &str) -> (r: bool)
    ensures
        r == text_contains(s@, p@),
{
    let sl = s.unicode_len();
    let pl = p.unicode_len();
    if pl > sl {
        assert(!text_contains(s@, p@));
        return false;
    }
    if pl == 0 {
        assert(p@ =~= s@.subrange(0, 0 + p@.len() as int));
        return true;
    }
    let mut k: usize = 0;
    while k <= sl - pl
        invariant
            0 <= k <= sl - pl + 1,
            pl == p@.len(),
            sl == s@.len(),
            0 < pl <= sl,
            forall|j: int| 0 <= j < k ==> p@ != #[trigger] s@.subrange(j, j + pl),
        decreases sl - pl + 1 - k,
    {
        let window = s.substring_char(k, k + pl);
        if str_eq(window, p) {
            assert(p@ == s@.subrange(k as int, k + pl));
            return true;
        }
        k += 1;
    }
    assert(!text_contains(s@, p@));
    false
}

/// The characters that a run of ASCII bytes spells.
pub open spec fn ascii_chars(bytes: Seq<u8>) -> Seq<char> {
    bytes.map_values(|b: u8| b as char)
}

/// The decimal digit character for `d`.
pub open spec fn digit_char(d: int) -> char {
    ((48 + d) as u8) as char
}

/// The decimal digits of `n`, most significant first, no leading zero
/// except for zero itself.
pub open spec fn dec_digits(n: nat) -> Seq<char>
    decreases n,
{
    if n < 10 {
        seq![digit_char(n as int)]
    } else {
        dec_digits(n / 10).push(digit_char((n % 10) as int))
    }
}

/// The decimal rendering of a signed number: a minus sign, then the digits
/// of its magnitude.
pub open spec fn dec_int(n: int) -> Seq<char> {
    if n < 0 {
        seq!['-'] + dec_digits((-n) as nat)
    } else {
        dec_digits(n as nat)
    }
}

/// Relies on `String::from_utf8`: the returned string holds exactly the
/// given bytes, and every ASCII byte is its own code point.
#[verifier::external_body]
fn string_from_ascii(bytes: Vec<u8>) -> (r: String)
    requires
        forall|i: int| 0 <= i < bytes@.len() ==> bytes@[i] < 128,
    ensures
        r@ == ascii_chars(bytes@),
{
    String::from_utf8(bytes).unwrap_or_default()
}

/// Render `n` in decimal.
pub fn i64_to_decimal(n: i64) -> (r: String)
    ensures
        r@ == dec_int(n as int),
{
    if n == 0 {
        let r = "0".to_owned();
        proof {
            reveal_strlit("0");
            assert('0' == 48u8 as char);
            assert(r@ =~= seq![digit_char(0)]);
        }
        return r;
    }
    let negative = n < 0;
    let wide: i128 = n as i128;
    let magnitude: u64 = if negative {
        (-wide) as u64
    } else {
        n as u64
    };
    let ghost m0: nat = magnitude as nat;
    let mut rev: Vec<u8> = Vec::new();
    let mut m: u64 = magnitude;
    loop
        invariant_except_break
            rev@.len() > 0 ==> m > 0,
        invariant
            m0 == magnitude as nat,
            m0 > 0,
            rev@.len() == 0 ==> m == magnitude,
            forall|i: int| 0 <= i < rev@.len() ==> 48 <= #[trigger] rev@[i] < 58,
            dec_digits(m0) == (if m > 0 {
                dec_digits(m as nat)
            } else {
                Seq::<char>::empty()
            }) + ascii_chars(rev@).reverse(),
        ensures
            dec_digits(m0) == ascii_chars(rev@).reverse(),
            forall|i: int| 0 <= i < rev@.len() ==> 48 <= #[trigger] rev@[i] < 58,
        decreases m,
    {
        let ghost m_pre = m as nat;
        let ghost rev_pre = rev@;
        let d: u8 = (m % 10) as u8;
        rev.push(48 + d);
        m = m / 10;
        proof {
            assert(m_pre > 0);
            let rc = ascii_chars(rev@);
            let pc = ascii_chars(rev_pre);
            assert forall|i: int| 0 <= i < rc.reverse().len() implies rc.reverse()[i] == (seq![
                digit_char((m_pre % 10) as int),
            ] + pc.reverse())[i] by {
                assert(rc[rev@.len() - 1 - i] == rev@[rev@.len() - 1 - i] as char);
                if i > 0 {
                    assert(pc[rev_pre.len() - i] == rev_pre[rev_pre.len() - i] as char);
                }
            }
            assert(rc.reverse() =~= seq![digit_char((m_pre % 10) as int)] + pc.reverse());
            if m_pre >= 10 {
                assert(dec_digits(m_pre) == dec_digits(m_pre / 10).push(digit_char(
                    (m_pre % 10) as int,
                )));
                assert(dec_digits(m_pre / 10) + rc.reverse() =~= dec_digits(m_pre) + pc.reverse());
            } else {
                assert(dec_digits(m_pre) =~= seq![digit_char((m_pre % 10) as int)]);
                assert(Seq::<char>::empty() + rc.reverse() =~= dec_digits(m_pre) + pc.reverse());
            }
        }
        if m == 0 {
            break ;
        }
    }
    let n_digits = rev.len();
    let mut bytes: Vec<u8> = Vec::new();
    if negative {
        bytes.push(45);
    }
    let offset = bytes.len();
    let mut k: usize = 0;
    while k < n_digits
        invariant
            0 <= k <= n_digits,
            n_digits == rev@.len(),
            offset == (if negative { 1int } else { 0int }),
            negative ==> bytes@.len() >= 1 && bytes@[0] == 45,
            bytes@.len() == offset + k,
            forall|i: int| 0 <= i < rev@.len() ==> 48 <= #[trigger] rev@[i] < 58,
            forall|i: int| 0 <= i < bytes@.len() ==> #[trigger] bytes@[i] < 128,
            forall|j: int| 0 <= j < k ==> #[trigger] bytes@[offset + j] == rev@[n_digits - 1 - j],
            dec_digits(m0) == ascii_chars(rev@).reverse(),
        decreases n_digits - k,
    {
        bytes.push(rev[n_digits - 1 - k]);
        k += 1;
    }
    proof {
        let digits = ascii_chars(rev@).reverse();
        assert forall|j: int| 0 <= j < digits.len() implies ascii_chars(bytes@)[offset + j]
            == digits[j] by {
            assert(bytes@[offset + j] == rev@[n_digits - 1 - j]);
            assert(ascii_chars(rev@)[n_digits - 1 - j] == rev@[n_digits - 1 - j] as char);
        }
        if negative {
            assert(ascii_chars(bytes@)[0] == 45u8 as char);
            assert(45u8 as char == '-');
            assert(ascii_chars(bytes@) =~= seq!['-'] + dec_digits((-(n as int)) as nat));
        } else {
            assert(ascii_chars(bytes@) =~= dec_digits(n as nat));
        }
    }
    string_from_ascii(bytes)
}

} // verus!
