//! Small text helpers: moving between strings and character vectors, string
//! equality, decimal rendering and parsing.

use vstd::prelude::*;

verus! {

/// Relies on `String`'s `FromIterator` impl: collecting characters yields the
/// string of exactly those characters.
#[verifier::external_body]
pub fn chars_to_string(v: Vec<char>) -> (r: String)
    ensures
        r@ == v@,
{
    v.into_iter().collect()
}

/// Relies on `str::chars`: the iterator yields the string's characters in
/// order.
#[verifier::external_body]
pub fn str_chars(s: &str) -> (r: Vec<char>)
    ensures
        r@ == s@,
{
    s.chars().collect()
}

/// Whether two strings hold the same characters.
pub fn str_eq(a: &str, b: &str) -> (r: bool)
    ensures
        r == (a@ == b@),
{
    let av = str_chars(a);
    let bv = str_chars(b);
    if av.len() != bv.len() {
        proof {
            assert(a@ != b@) by {
                assert(a@.len() != b@.len());
            }
        }
        return false;
    }
    let n = av.len();
    let mut k: usize = 0;
    while k < n
        invariant
            k <= n,
            n == av@.len() == bv@.len(),
            av@ == a@,
            bv@ == b@,
            forall|i: int| 0 <= i < k ==> av@[i] == bv@[i],
        decreases n - k,
    {
        if av[k] != bv[k] {
            return false;
        }
        k += 1;
    }
    proof {
        assert(a@ =~= b@);
    }
    true
}

/// The character sequences a run of strings holds.
pub open spec fn sp_texts(s: Seq<String>) -> Seq<Seq<char>> {
    s.map_values(|t: String| t@)
}

/// A text clipped or blank-padded to an exact width.
pub open spec fn sp_clip_pad(s: Seq<char>, width: int) -> Seq<char> {
    Seq::new(width as nat, |j: int| if j < s.len() { s[j] } else { ' ' })
}

/// Clips or pads a character vector to an exact width with blanks.
pub fn clip_pad_chars(src: &Vec<char>, width: usize) -> (r: Vec<char>)
    ensures
        r@ == sp_clip_pad(src@, width as int),
{
    let mut r: Vec<char> = Vec::new();
    let mut j: usize = 0;
    while j < width
        invariant
            j <= width,
            r@.len() == j,
            forall|m: int|
                0 <= m < j ==> #[trigger] r@[m] == (if m < src@.len() {
                    src@[m]
                } else {
                    ' '
                }),
        decreases width - j,
    {
        if j < src.len() {
            let c = src[j];
            r.push(c);
        } else {
            r.push(' ');
        }
        j += 1;
    }
    proof {
        assert(r@ =~= sp_clip_pad(src@, width as int));
    }
    r
}

/// The decimal digits of a number, most significant first.
pub open spec fn sp_decimal(n: int) -> Seq<char>
    decreases n,
{
    if n <= 0 {
        Seq::empty()
    } else {
        sp_decimal(n / 10).push(sp_digit(n % 10))
    }
}

pub open spec fn sp_digit(d: int) -> char {
    if d == 0 {
        '0'
    } else if d == 1 {
        '1'
    } else if d == 2 {
        '2'
    } else if d == 3 {
        '3'
    } else if d == 4 {
        '4'
    } else if d == 5 {
        '5'
    } else if d == 6 {
        '6'
    } else if d == 7 {
        '7'
    } else if d == 8 {
        '8'
    } else {
        '9'
    }
}

/// Renders a number in decimal.
pub fn u64_to_dec(n: u64) -> (r: Vec<char>)
    ensures
        n == 0 ==> r@ =~= seq!['0'],
        n > 0 ==> r@ == sp_decimal(n as int),
{
    if n == 0 {
        let mut v: Vec<char> = Vec::new();
        v.push('0');
        return v;
    }
    let mut rev: Vec<char> = Vec::new();
    let mut m = n;
    while m > 0
        invariant
            sp_decimal(n as int) == sp_decimal(m as int) + rev@.reverse(),
        decreases m,
    {
        let d = m % 10;
        let c = if d == 0 {
            '0'
        } else if d == 1 {
            '1'
        } else if d == 2 {
            '2'
        } else if d == 3 {
            '3'
        } else if d == 4 {
            '4'
        } else if d == 5 {
            '5'
        } else if d == 6 {
            '6'
        } else if d == 7 {
            '7'
        } else if d == 8 {
            '8'
        } else {
            '9'
        };
        assert(c == sp_digit(m as int % 10));
        let ghost prev_rev = rev@;
        let ghost prev_m = m as int;
        rev.push(c);
        m = m / 10;
        proof {
            assert(rev@.reverse() =~= seq![c] + prev_rev.reverse());
            assert(sp_decimal(prev_m) == sp_decimal(prev_m / 10).push(sp_digit(prev_m % 10)));
            assert(sp_decimal(m as int).push(c) + prev_rev.reverse() =~= sp_decimal(m as int)
                + rev@.reverse());
        }
    }
    let mut out: Vec<char> = Vec::new();
    let len = rev.len();
    let mut k: usize = 0;
    while k < len
        invariant
            k <= len,
            len == rev@.len(),
            out@ =~= rev@.reverse().take(k as int),
        decreases len - k,
    {
        out.push(rev[len - 1 - k]);
        k += 1;
        proof {
            assert(out@ =~= rev@.reverse().take(k as int));
        }
    }
    proof {
        assert(rev@.reverse().take(len as int) =~= rev@.reverse());
        assert(sp_decimal(m as int) + rev@.reverse() =~= rev@.reverse());
    }
    out
}

/// The number a run of decimal digits denotes.
pub open spec fn sp_parsed(s: Seq<char>) -> int
    decreases s.len(),
{
    if s.len() == 0 {
        0
    } else {
        sp_parsed(s.drop_last()) * 10 + sp_digit_value(s.last())
    }
}

pub open spec fn sp_digit_value(c: char) -> int {
    c as int - '0' as int
}

pub open spec fn sp_all_digits(s: Seq<char>) -> bool {
    forall|i: int| 0 <= i < s.len() ==> '0' <= #[trigger] s[i] <= '9'
}

/// Parses an unsigned 16-bit decimal number; anything else is rejected.
pub fn parse_u16(s: &Vec<char>) -> (r: Option<u16>)
    ensures
        r is Some <==> s@.len() > 0 && sp_all_digits(s@) && sp_parsed(s@) <= u16::MAX,
        r matches Some(v) ==> v == sp_parsed(s@),
{
    if s.len() == 0 {
        return None;
    }
    let n = s.len();
    let mut acc: u32 = 0;
    let mut k: usize = 0;
    while k < n
        invariant
            k <= n,
            n == s@.len(),
            forall|i: int| 0 <= i < k ==> '0' <= #[trigger] s@[i] <= '9',
            acc == sp_parsed(s@.take(k as int)),
            acc <= u16::MAX,
        decreases n - k,
    {
        let c = s[k];
        if c < '0' || c > '9' {
            proof {
                assert(!sp_all_digits(s@));
            }
            return None;
        }
        let d: u32 = (c as u32) - ('0' as u32);
        assert(d <= 9);
        let next: u32 = acc * 10 + d;
        proof {
            assert(s@.take(k as int + 1).drop_last() =~= s@.take(k as int));
            assert(s@.take(k as int + 1).last() == s@[k as int]);
        }
        if next > u16::MAX as u32 {
            proof {
                if sp_all_digits(s@) {
                    lemma_parsed_monotone(s@, k as int + 1);
                }
            }
            return None;
        }
        acc = next;
        k += 1;
    }
    proof {
        assert(s@.take(n as int) =~= s@);
    }
    Some(acc as u16)
}

/// A digit run's value only grows as more digits follow.
proof fn lemma_parsed_monotone(s: Seq<char>, k: int)
    requires
        0 < k <= s.len(),
        sp_all_digits(s),
    ensures
        sp_parsed(s.take(k)) <= sp_parsed(s),
    decreases s.len() - k,
{
    if k < s.len() {
        lemma_parsed_monotone(s, k + 1);
        assert(s.take(k + 1).drop_last() =~= s.take(k));
        assert(sp_parsed(s.take(k + 1)) == sp_parsed(s.take(k)) * 10 + sp_digit_value(
            s.take(k + 1).last(),
        ));
        assert(forall|i: int|
            0 <= i < s.take(k).len() ==> '0' <= #[trigger] s.take(k)[i] <= '9');
        lemma_parsed_nonneg(s.take(k));
        assert(sp_parsed(s.take(k)) * 10 >= sp_parsed(s.take(k))) by (nonlinear_arith)
            requires
                sp_parsed(s.take(k)) >= 0,
        ;
        assert('0' <= s[k] <= '9');
    } else {
        assert(s.take(k) =~= s);
    }
}

/// A digit run's value is never negative.
proof fn lemma_parsed_nonneg(s: Seq<char>)
    requires
        forall|i: int| 0 <= i < s.len() ==> '0' <= #[trigger] s[i] <= '9',
    ensures
        sp_parsed(s) >= 0,
    decreases s.len(),
{
    if s.len() > 0 {
        assert(forall|i: int|
            0 <= i < s.drop_last().len() ==> '0' <= #[trigger] s.drop_last()[i] <= '9');
        lemma_parsed_nonneg(s.drop_last());
        assert(sp_parsed(s.drop_last()) * 10 >= 0) by (nonlinear_arith)
            requires
                sp_parsed(s.drop_last()) >= 0,
        ;
    }
}

} // verus!
