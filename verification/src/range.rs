//! Address Range Enumerator: dotted-quad text to 32-bit addresses and back,
//! and the inclusive ascending listing of a range.

use vstd::prelude::*;
use crate::strutil::{
    all_digits, chars_string, dec_str, dec_val, digit_char, digit_exec, digit_val, is_digit,
    lemma_dec_str_digits, lemma_dec_val_dec_str, split_chars, split_on, str_chars,
};

verus! {

/// Why a dotted-quad text was rejected.
#[derive(Clone, Copy, Debug, PartialEq, Eq, Structural)]
pub enum ParseError {
    /// Not exactly four dot-separated decimal groups.
    InvalidFormat,
    /// A group exceeds 255.
    OutOfRange,
}

/// A well-shaped group: nonempty, decimal digits only.
pub open spec fn valid_group(g: Seq<char>) -> bool {
    g.len() >= 1 && all_digits(g)
}

/// The dot-separated groups of the text.
pub open spec fn ip_groups(s: Seq<char>) -> Seq<Seq<char>> {
    split_on(s, '.')
}

/// Exactly four groups, each made of digits.
pub open spec fn well_formed_ip(s: Seq<char>) -> bool {
    ip_groups(s).len() == 4 && forall|i: int| 0 <= i < 4 ==> valid_group(#[trigger] ip_groups(s)[i])
}

/// Every group's value fits in one octet.
pub open spec fn ip_groups_in_range(s: Seq<char>) -> bool {
    forall|i: int| 0 <= i < 4 ==> dec_val(#[trigger] ip_groups(s)[i]) <= 255
}

/// The numeric address a well-formed text denotes.
pub open spec fn ip_value(s: Seq<char>) -> nat {
    dec_val(ip_groups(s)[0]) * 0x1000000 + dec_val(ip_groups(s)[1]) * 0x10000 + dec_val(
        ip_groups(s)[2],
    ) * 0x100 + dec_val(ip_groups(s)[3])
}

/// What parsing yields on any input: a format check first, then the range
/// check, then the combined address value.
pub open spec fn parse_ip_spec(s: Seq<char>) -> Result<u32, ParseError> {
    if !well_formed_ip(s) {
        Err(ParseError::InvalidFormat)
    } else if !ip_groups_in_range(s) {
        Err(ParseError::OutOfRange)
    } else {
        Ok(ip_value(s) as u32)
    }
}

/// The four octets of an address, most significant first.
pub open spec fn oct0(n: u32) -> nat {
    (n as nat) / 0x1000000
}

pub open spec fn oct1(n: u32) -> nat {
    ((n as nat) / 0x10000) % 0x100
}

pub open spec fn oct2(n: u32) -> nat {
    ((n as nat) / 0x100) % 0x100
}

pub open spec fn oct3(n: u32) -> nat {
    (n as nat) % 0x100
}

/// The dotted-quad rendering of an address.
pub open spec fn ip_str_spec(n: u32) -> Seq<char> {
    dec_str(oct0(n)) + seq!['.'] + dec_str(oct1(n)) + seq!['.'] + dec_str(oct2(n)) + seq![
        '.',
    ] + dec_str(oct3(n))
}

/// Is the group nonempty and all digits?
pub(crate) fn check_group(g: &Vec<char>) -> (r: bool)
    ensures
        r == valid_group(g@),
{
    if g.len() == 0 {
        return false;
    }
    let mut i: usize = 0;
    while i < g.len()
        invariant
            i <= g.len(),
            forall|j: int| 0 <= j < i ==> is_digit(#[trigger] g@[j]),
        decreases g.len() - i,
    {
        let c = g[i];
        if !('0' <= c && c <= '9') {
            return false;
        }
        i += 1;
    }
    true
}

/// The group's value, capped just above one octet so overflow cannot occur.
pub(crate) fn group_val_capped(g: &Vec<char>) -> (r: u32)
    requires
        valid_group(g@),
    ensures
        dec_val(g@) <= 255 ==> r == dec_val(g@),
        dec_val(g@) > 255 ==> r == 256,
{
    let mut val: u32 = 0;
    let mut i: usize = 0;
    assert(g@.subrange(0, 0) =~= Seq::<char>::empty());
    while i < g.len()
        invariant
            i <= g.len(),
            all_digits(g@),
            val <= 256,
            dec_val(g@.subrange(0, i as int)) <= 255 ==> val == dec_val(g@.subrange(0, i as int)),
            dec_val(g@.subrange(0, i as int)) > 255 ==> val == 256,
        decreases g.len() - i,
    {
        let ghost pre = g@.subrange(0, i as int);
        assert(g@.subrange(0, i + 1 as int).drop_last() =~= pre);
        assert(g@.subrange(0, i + 1 as int).last() == g@[i as int]);
        let c = g[i];
        assert(is_digit(c));
        let d = c as u32 - '0' as u32;
        assert(d == digit_val(c));
        val = val * 10 + d;
        if val > 255 {
            val = 256;
        }
        proof {
            if dec_val(pre) > 255 {
                assert(dec_val(pre) * 10 + digit_val(c) > 255);
            }
        }
        i += 1;
    }
    assert(g@.subrange(0, g@.len() as int) =~= g@);
    val
}

/// Parse a dotted-quad text into its 32-bit address.
///
/// Fails with `InvalidFormat` unless the text is exactly four dot-separated
/// decimal groups, and with `OutOfRange` when a group exceeds 255.
pub fn parse_ip(ip_str: &str) -> (r: Result<u32, ParseError>)
    ensures
        r == parse_ip_spec(ip_str@),
{
    let v = str_chars(ip_str);
    let groups = split_chars(&v, '.');
    proof {
        assert(groups.deep_view().len() == groups@.len());
    }
    if groups.len() != 4 {
        assert(!well_formed_ip(ip_str@));
        return Err(ParseError::InvalidFormat);
    }
    proof {
        assert(groups@[0].deep_view() =~= groups@[0]@);
        assert(groups@[1].deep_view() =~= groups@[1]@);
        assert(groups@[2].deep_view() =~= groups@[2]@);
        assert(groups@[3].deep_view() =~= groups@[3]@);
        assert(groups@[0]@ == ip_groups(ip_str@)[0]);
        assert(groups@[1]@ == ip_groups(ip_str@)[1]);
        assert(groups@[2]@ == ip_groups(ip_str@)[2]);
        assert(groups@[3]@ == ip_groups(ip_str@)[3]);
    }
    let ok0 = check_group(&groups[0]);
    let ok1 = check_group(&groups[1]);
    let ok2 = check_group(&groups[2]);
    let ok3 = check_group(&groups[3]);
    if !(ok0 && ok1 && ok2 && ok3) {
        assert(!well_formed_ip(ip_str@));
        return Err(ParseError::InvalidFormat);
    }
    assert(well_formed_ip(ip_str@));
    let a = group_val_capped(&groups[0]);
    let b = group_val_capped(&groups[1]);
    let c = group_val_capped(&groups[2]);
    let d = group_val_capped(&groups[3]);
    if a > 255 || b > 255 || c > 255 || d > 255 {
        assert(!ip_groups_in_range(ip_str@));
        return Err(ParseError::OutOfRange);
    }
    assert(ip_groups_in_range(ip_str@));
    let n = a * 0x1000000 + b * 0x10000 + c * 0x100 + d;
    assert(n as nat == ip_value(ip_str@));
    Ok(n)
}

/// The decimal digits of one octet value.
pub(crate) fn render_octet(b: u8) -> (v: Vec<char>)
    ensures
        v@ == dec_str(b as nat),
{
    proof {
        reveal_with_fuel(dec_str, 3);
    }
    let mut v: Vec<char> = Vec::new();
    if b >= 100 {
        v.push(digit_exec((b / 10) / 10));
        v.push(digit_exec((b / 10) % 10));
        v.push(digit_exec(b % 10));
        assert(v@ =~= dec_str(b as nat));
    } else if b >= 10 {
        v.push(digit_exec(b / 10));
        v.push(digit_exec(b % 10));
        assert(v@ =~= dec_str(b as nat));
    } else {
        v.push(digit_exec(b));
        assert(v@ =~= dec_str(b as nat));
    }
    v
}

/// Render an address as dotted-quad text.
pub fn format_ip(n: u32) -> (r: String)
    ensures
        r@ == ip_str_spec(n),
{
    let o0 = (n / 0x1000000) as u8;
    let o1 = ((n / 0x10000) % 0x100) as u8;
    let o2 = ((n / 0x100) % 0x100) as u8;
    let o3 = (n % 0x100) as u8;
    assert(o0 as nat == oct0(n));
    assert(o1 as nat == oct1(n));
    assert(o2 as nat == oct2(n));
    assert(o3 as nat == oct3(n));
    let mut v = render_octet(o0);
    let mut rest = render_octet(o1);
    v.push('.');
    v.append(&mut rest);
    let mut rest2 = render_octet(o2);
    v.push('.');
    v.append(&mut rest2);
    let mut rest3 = render_octet(o3);
    v.push('.');
    v.append(&mut rest3);
    assert(v@ =~= ip_str_spec(n));
    chars_string(&v)
}

/// List the whole inclusive range, in ascending address order.
///
/// Entry `i` renders address `start + i`; with the round-trip law this is
/// exactly `end - start + 1` addresses in ascending numeric order, the first
/// and last being the bounds themselves.
pub fn enumerate(start: u32, end: u32) -> (r: Vec<String>)
    requires
        start <= end,
        end - start < usize::MAX,
    ensures
        r@.len() == end - start + 1,
        forall|i: int| 0 <= i < r@.len() ==> (#[trigger] r@[i])@ == ip_str_spec((start + i) as u32),
{
    let count = (end - start) as usize + 1;
    let mut r: Vec<String> = Vec::new();
    let mut i: usize = 0;
    while i < count
        invariant
            count == end - start + 1,
            start <= end,
            i <= count,
            r@.len() == i,
            forall|j: int| 0 <= j < i ==> (#[trigger] r@[j])@ == ip_str_spec((start + j) as u32),
        decreases count - i,
    {
        let n = start + (i as u32);
        r.push(format_ip(n));
        i += 1;
    }
    r
}

/// Rendering an address and parsing the text gives the address back: the
/// dotted-quad round trip is exact for every 32-bit value.
pub proof fn lemma_parse_render_roundtrip(n: u32)
    ensures
        parse_ip_spec(ip_str_spec(n)) == Ok::<u32, ParseError>(n),
{
    let d0 = dec_str(oct0(n));
    let d1 = dec_str(oct1(n));
    let d2 = dec_str(oct2(n));
    let d3 = dec_str(oct3(n));
    lemma_dec_str_digits(oct0(n));
    lemma_dec_str_digits(oct1(n));
    lemma_dec_str_digits(oct2(n));
    lemma_dec_str_digits(oct3(n));
    assert(forall|i: int| 0 <= i < d0.len() ==> d0[i] != '.');
    assert(forall|i: int| 0 <= i < d1.len() ==> d1[i] != '.');
    assert(forall|i: int| 0 <= i < d2.len() ==> d2[i] != '.');
    assert(forall|i: int| 0 <= i < d3.len() ==> d3[i] != '.');
    let s = ip_str_spec(n);
    let r1 = d1 + seq!['.'] + (d2 + seq!['.'] + d3);
    let r2 = d2 + seq!['.'] + d3;
    assert(s =~= d0 + seq!['.'] + r1);
    crate::strutil::lemma_split_aux_concat(d0, '.', r1, Seq::<char>::empty());
    crate::strutil::lemma_split_aux_concat(d1, '.', r2, Seq::<char>::empty());
    crate::strutil::lemma_split_aux_concat(d2, '.', d3, Seq::<char>::empty());
    crate::strutil::lemma_split_aux_no_sep(d3, '.', Seq::<char>::empty());
    assert(Seq::<char>::empty() + d0 =~= d0);
    assert(Seq::<char>::empty() + d1 =~= d1);
    assert(Seq::<char>::empty() + d2 =~= d2);
    assert(Seq::<char>::empty() + d3 =~= d3);
    assert(ip_groups(s) =~= seq![d0, d1, d2, d3]);
    lemma_dec_val_dec_str(oct0(n));
    lemma_dec_val_dec_str(oct1(n));
    lemma_dec_val_dec_str(oct2(n));
    lemma_dec_val_dec_str(oct3(n));
    assert(oct0(n) <= 255) by {
        vstd::arithmetic::div_mod::lemma_div_denominator(n as int, 0x1000000, 0x100);
        vstd::arithmetic::div_mod::lemma_fundamental_div_mod((n as int) / 0x1000000, 0x100);
    }
    assert(well_formed_ip(s));
    assert(ip_groups_in_range(s));
    lemma_octet_recompose(n);
    assert(ip_value(s) == n as nat);
}

/// The four octets reassemble to the address.
proof fn lemma_octet_recompose(n: u32)
    ensures
        oct0(n) * 0x1000000 + oct1(n) * 0x10000 + oct2(n) * 0x100 + oct3(n) == n as nat,
{
    let x = n as int;
    vstd::arithmetic::div_mod::lemma_fundamental_div_mod(x, 0x100);
    vstd::arithmetic::div_mod::lemma_fundamental_div_mod(x / 0x100, 0x100);
    vstd::arithmetic::div_mod::lemma_fundamental_div_mod(x / 0x10000, 0x100);
    vstd::arithmetic::div_mod::lemma_div_denominator(x, 0x100, 0x100);
    vstd::arithmetic::div_mod::lemma_div_denominator(x, 0x10000, 0x100);
    assert((x / 0x100) / 0x100 == x / 0x10000);
    assert((x / 0x10000) / 0x100 == x / 0x1000000);
    assert(x == 0x100 * (x / 0x100) + x % 0x100);
    assert(x / 0x100 == 0x100 * (x / 0x10000) + (x / 0x100) % 0x100);
    assert(x / 0x10000 == 0x100 * (x / 0x1000000) + (x / 0x10000) % 0x100);
    assert(x / 0x1000000 <= 255) by {
        vstd::arithmetic::div_mod::lemma_div_denominator(x, 0x1000000, 0x100);
        vstd::arithmetic::div_mod::lemma_fundamental_div_mod(x / 0x1000000, 0x100);
    }
}


/// What a listing with the enumerator's shape guarantees: every entry reads
/// back as `start + i`, the first and last entries render the bounds, and
/// consecutive entries are in ascending numeric order.
pub proof fn lemma_enumerate_values(start: u32, end: u32, addrs: Seq<Seq<char>>, i: int)
    requires
        start <= end,
        addrs.len() == end - start + 1,
        forall|j: int| 0 <= j < addrs.len() ==> addrs[j] == ip_str_spec((start + j) as u32),
        0 <= i < addrs.len(),
    ensures
        parse_ip_spec(addrs[i]) == Ok::<u32, ParseError>((start + i) as u32),
        addrs[0] == ip_str_spec(start),
        addrs[addrs.len() - 1] == ip_str_spec(end),
        i > 0 ==> ip_value(addrs[i - 1]) < ip_value(addrs[i]),
{
    lemma_parse_render_roundtrip((start + i) as u32);
    if i > 0 {
        lemma_parse_render_roundtrip((start + i - 1) as u32);
    }
}

} // verus!
