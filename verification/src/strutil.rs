//! Character-sequence helpers shared by the parsing and formatting code:
//! splitting on a separator, whitespace tokenization, substring search,
//! trimming, decimal digits, and ASCII case mapping.

use vstd::prelude::*;
use vstd::string::StrSliceExecFns;

verus! {

/// Whitespace as this library understands it: the blanks that can occur
/// inside one line of command output or of a configuration file.
pub open spec fn is_ws(c: char) -> bool {
    c == ' ' || c == '\t' || c == '\r' || c == '\n'
}

/// Decimal digit test.
pub open spec fn is_digit(c: char) -> bool {
    '0' <= c && c <= '9'
}

/// Numeric value of a decimal digit.
pub open spec fn digit_val(c: char) -> nat
    recommends
        is_digit(c),
{
    (c as nat - '0' as nat) as nat
}

/// The decimal digit character for a value below ten.
pub open spec fn digit_char(d: nat) -> char
    recommends
        d < 10,
{
    (('0' as u32) + d as u32) as char
}

/// ASCII upper-casing of one character; anything outside `a..=z` is kept.
pub open spec fn ascii_upper(c: char) -> char {
    if 'a' <= c && c <= 'z' {
        ((c as u32 - 32) as char)
    } else {
        c
    }
}

/// Upper-case every character of a sequence (ASCII letters only).
pub open spec fn upper_seq(s: Seq<char>) -> Seq<char> {
    s.map_values(|c: char| ascii_upper(c))
}

/// Does the character occur anywhere in the sequence?
pub open spec fn contains_char(s: Seq<char>, c: char) -> bool {
    exists|i: int| 0 <= i < s.len() && s[i] == c
}

/// Every character is a decimal digit.
pub open spec fn all_digits(s: Seq<char>) -> bool {
    forall|i: int| 0 <= i < s.len() ==> is_digit(#[trigger] s[i])
}

/// Numeric value of a digit string, most significant digit first.
pub open spec fn dec_val(s: Seq<char>) -> nat
    decreases s.len(),
{
    if s.len() == 0 {
        0
    } else {
        dec_val(s.drop_last()) * 10 + digit_val(s.last())
    }
}

/// Shortest decimal rendering of a number, no leading zeros (except "0").
pub open spec fn dec_str(n: nat) -> Seq<char>
    decreases n,
{
    if n < 10 {
        seq![digit_char(n)]
    } else {
        dec_str(n / 10).push(digit_char(n % 10))
    }
}

/// Splitting on a separator, with the group read so far as accumulator.
/// Mirrors `str::split`: adjacent separators yield empty groups and the
/// result always has one group more than the count of separators.
pub open spec fn split_aux(s: Seq<char>, sep: char, cur: Seq<char>) -> Seq<Seq<char>>
    decreases s.len(),
{
    if s.len() == 0 {
        seq![cur]
    } else if s[0] == sep {
        seq![cur] + split_aux(s.drop_first(), sep, Seq::<char>::empty())
    } else {
        split_aux(s.drop_first(), sep, cur.push(s[0]))
    }
}

/// The groups of `s` between occurrences of `sep`.
pub open spec fn split_on(s: Seq<char>, sep: char) -> Seq<Seq<char>> {
    split_aux(s, sep, Seq::<char>::empty())
}

/// Whitespace tokenization, with the token read so far as accumulator.
/// Mirrors `str::split_whitespace`: no empty tokens.
pub open spec fn tok_aux(s: Seq<char>, cur: Seq<char>) -> Seq<Seq<char>>
    decreases s.len(),
{
    if s.len() == 0 {
        if cur.len() == 0 {
            Seq::<Seq<char>>::empty()
        } else {
            seq![cur]
        }
    } else if is_ws(s[0]) {
        if cur.len() == 0 {
            tok_aux(s.drop_first(), Seq::<char>::empty())
        } else {
            seq![cur] + tok_aux(s.drop_first(), Seq::<char>::empty())
        }
    } else {
        tok_aux(s.drop_first(), cur.push(s[0]))
    }
}

/// The whitespace-separated tokens of `s`.
pub open spec fn tokens(s: Seq<char>) -> Seq<Seq<char>> {
    tok_aux(s, Seq::<char>::empty())
}

/// `sub` occurs in `s` starting at position `i`.
pub open spec fn has_sub_at(s: Seq<char>, sub: Seq<char>, i: int) -> bool {
    0 <= i && i + sub.len() <= s.len() && s.subrange(i, i + sub.len() as int) == sub
}

/// `i` is the first position at which `sub` occurs in `s`.
pub open spec fn sub_first_at(s: Seq<char>, sub: Seq<char>, i: int) -> bool {
    has_sub_at(s, sub, i) && forall|j: int| 0 <= j < i ==> !has_sub_at(s, sub, j)
}

/// `sub` occurs somewhere in `s`.
pub open spec fn contains_sub(s: Seq<char>, sub: Seq<char>) -> bool {
    exists|i: int| has_sub_at(s, sub, i)
}

/// The sequence without leading and trailing whitespace.
pub open spec fn trim_spec(s: Seq<char>) -> Seq<char>
    decreases s.len(),
{
    if s.len() == 0 {
        s
    } else if is_ws(s[0]) {
        trim_spec(s.drop_first())
    } else if is_ws(s.last()) {
        trim_spec(s.drop_last())
    } else {
        s
    }
}

/// Relies on char::from_u32: yields the character with the given code point.
#[verifier::external_body]
pub fn char_of_u32(x: u32) -> (c: char)
    requires
        x < 0xD800 || (0xE000 <= x && x < 0x110000),
    ensures
        c == (x as char),
{
    char::from_u32(x).unwrap()
}

/// Relies on String::push: appends exactly one character.
#[verifier::external_body]
pub fn push_char(s: &mut String, c: char)
    ensures
        final(s)@ == old(s)@.push(c),
{
    s.push(c);
}

/// The characters of a string slice, in order.
pub fn str_chars(s: &str) -> (v: Vec<char>)
    ensures
        v@ == s@,
{
    let n = s.unicode_len();
    let mut v: Vec<char> = Vec::new();
    let mut i: usize = 0;
    while i < n
        invariant
            n == s@.len(),
            i <= n,
            v@ == s@.subrange(0, i as int),
        decreases n - i,
    {
        let c = s.get_char(i);
        v.push(c);
        assert(v@ =~= s@.subrange(0, i + 1 as int));
        i += 1;
    }
    assert(v@ =~= s@);
    v
}

/// A string made of the given characters, in order.
pub fn chars_string(v: &Vec<char>) -> (s: String)
    ensures
        s@ == v@,
{
    let mut s = String::new();
    let mut i: usize = 0;
    while i < v.len()
        invariant
            i <= v.len(),
            s@ == v@.subrange(0, i as int),
        decreases v.len() - i,
    {
        push_char(&mut s, v[i]);
        assert(s@ =~= v@.subrange(0, i + 1 as int));
        i += 1;
    }
    assert(s@ =~= v@);
    s
}

/// Element-wise equality of two character vectors.
pub fn chars_eq(a: &Vec<char>, b: &Vec<char>) -> (r: bool)
    ensures
        r == (a@ == b@),
{
    if a.len() != b.len() {
        assert(a@ != b@);
        return false;
    }
    let mut i: usize = 0;
    while i < a.len()
        invariant
            i <= a.len(),
            a@.len() == b@.len(),
            forall|j: int| 0 <= j < i ==> a@[j] == b@[j],
        decreases a.len() - i,
    {
        if a[i] != b[i] {
            return false;
        }
        i += 1;
    }
    assert(a@ =~= b@);
    true
}

/// Upper-cased copy of a character vector (ASCII letters only).
pub fn upper_chars(v: &Vec<char>) -> (r: Vec<char>)
    ensures
        r@ == upper_seq(v@),
{
    let mut r: Vec<char> = Vec::new();
    let mut i: usize = 0;
    while i < v.len()
        invariant
            i <= v.len(),
            r@ == upper_seq(v@.subrange(0, i as int)),
        decreases v.len() - i,
    {
        let c = v[i];
        let u = if 'a' <= c && c <= 'z' {
            char_of_u32(c as u32 - 32)
        } else {
            c
        };
        assert(u == ascii_upper(c));
        r.push(u);
        assert(r@ =~= upper_seq(v@.subrange(0, i + 1 as int)));
        i += 1;
    }
    assert(v@.subrange(0, v@.len() as int) =~= v@);
    r
}

/// The characters replaced: every `from` becomes `to`, built back to front.
pub open spec fn replace_seq(s: Seq<char>, from: char, to: char) -> Seq<char>
    decreases s.len(),
{
    if s.len() == 0 {
        s
    } else {
        let r = replace_seq(s.drop_last(), from, to);
        if s.last() == from {
            r.push(to)
        } else {
            r.push(s.last())
        }
    }
}

/// The characters kept: every `c` is removed.
pub open spec fn remove_seq(s: Seq<char>, c: char) -> Seq<char>
    decreases s.len(),
{
    if s.len() == 0 {
        s
    } else {
        let r = remove_seq(s.drop_last(), c);
        if s.last() == c {
            r
        } else {
            r.push(s.last())
        }
    }
}

/// `p` is a prefix of `s`.
pub open spec fn starts_with_spec(s: Seq<char>, p: Seq<char>) -> bool {
    p.len() <= s.len() && s.subrange(0, p.len() as int) == p
}

/// The groups of `v` between occurrences of `sep`, as `str::split` yields them.
pub fn split_chars(v: &Vec<char>, sep: char) -> (r: Vec<Vec<char>>)
    ensures
        r.deep_view() == split_on(v@, sep),
{
    let mut groups: Vec<Vec<char>> = Vec::new();
    let mut cur: Vec<char> = Vec::new();
    let mut i: usize = 0;
    assert(v@.subrange(0, v@.len() as int) =~= v@);
    while i < v.len()
        invariant
            i <= v.len(),
            split_on(v@, sep) == groups.deep_view() + split_aux(
                v@.subrange(i as int, v@.len() as int),
                sep,
                cur@,
            ),
        decreases v.len() - i,
    {
        let ghost rem = v@.subrange(i as int, v@.len() as int);
        assert(rem.drop_first() =~= v@.subrange(i + 1 as int, v@.len() as int));
        let c = v[i];
        if c == sep {
            let ghost old_groups = groups.deep_view();
            let ghost prev = cur@;
            groups.push(cur);
            assert(groups.deep_view() =~~= old_groups + seq![prev]);
            cur = Vec::new();
            assert(groups.deep_view() + split_aux(rem.drop_first(), sep, Seq::<char>::empty())
                =~~= old_groups + (seq![prev] + split_aux(rem.drop_first(), sep, Seq::<char>::empty())));
        } else {
            cur.push(c);
        }
        i += 1;
    }
    assert(v@.subrange(v@.len() as int, v@.len() as int) =~= Seq::<char>::empty());
    let ghost old_groups = groups.deep_view();
    groups.push(cur);
    assert(groups.deep_view() =~~= old_groups + seq![cur@]);
    groups
}

/// The whitespace-separated tokens of `v`, as `str::split_whitespace` yields them.
pub fn tokens_chars(v: &Vec<char>) -> (r: Vec<Vec<char>>)
    ensures
        r.deep_view() == tokens(v@),
{
    let mut toks: Vec<Vec<char>> = Vec::new();
    let mut cur: Vec<char> = Vec::new();
    let mut i: usize = 0;
    assert(v@.subrange(0, v@.len() as int) =~= v@);
    while i < v.len()
        invariant
            i <= v.len(),
            tokens(v@) == toks.deep_view() + tok_aux(
                v@.subrange(i as int, v@.len() as int),
                cur@,
            ),
        decreases v.len() - i,
    {
        let ghost rem = v@.subrange(i as int, v@.len() as int);
        assert(rem.drop_first() =~= v@.subrange(i + 1 as int, v@.len() as int));
        let c = v[i];
        if c == ' ' || c == '\t' || c == '\r' || c == '\n' {
            if cur.len() > 0 {
                let ghost old_toks = toks.deep_view();
                let ghost prev = cur@;
                toks.push(cur);
                assert(toks.deep_view() =~~= old_toks + seq![prev]);
                cur = Vec::new();
                assert(toks.deep_view() + tok_aux(rem.drop_first(), Seq::<char>::empty())
                    =~~= old_toks + (seq![prev] + tok_aux(rem.drop_first(), Seq::<char>::empty())));
            } else {
                assert(cur@ =~= Seq::<char>::empty());
            }
        } else {
            cur.push(c);
        }
        i += 1;
    }
    assert(v@.subrange(v@.len() as int, v@.len() as int) =~= Seq::<char>::empty());
    if cur.len() > 0 {
        let ghost old_toks = toks.deep_view();
        toks.push(cur);
        assert(toks.deep_view() =~~= old_toks + seq![cur@]);
    }
    toks
}

/// Character test matching `is_ws`.
pub fn is_ws_exec(c: char) -> (r: bool)
    ensures
        r == is_ws(c),
{
    c == ' ' || c == '\t' || c == '\r' || c == '\n'
}

/// Does `v` match `sub` at position `i`?
fn match_at(v: &Vec<char>, sub: &Vec<char>, i: usize) -> (r: bool)
    requires
        i + sub@.len() <= v@.len(),
    ensures
        r == (v@.subrange(i as int, i + sub@.len()) == sub@),
{
    let n = v.len();
    let mut j: usize = 0;
    while j < sub.len()
        invariant
            n == v@.len(),
            i + sub@.len() <= v@.len(),
            j <= sub@.len(),
            forall|k: int| 0 <= k < j ==> v@[i + k] == sub@[k],
        decreases sub.len() - j,
    {
        assert(i + j < n);
        if v[i + j] != sub[j] {
            assert(v@.subrange(i as int, i + sub@.len())[j as int] != sub@[j as int]);
            return false;
        }
        j += 1;
    }
    assert(v@.subrange(i as int, i + sub@.len()) =~= sub@);
    true
}

/// The first position of `sub` inside `v`, if it occurs at all.
pub fn find_sub(v: &Vec<char>, sub: &Vec<char>) -> (r: Option<usize>)
    ensures
        match r {
            Some(i) => sub_first_at(v@, sub@, i as int),
            None => !contains_sub(v@, sub@),
        },
{
    if sub.len() > v.len() {
        assert(forall|i: int| !has_sub_at(v@, sub@, i));
        return None;
    }
    let last_start = v.len() - sub.len();
    let mut i: usize = 0;
    while i < last_start
        invariant
            sub@.len() <= v@.len(),
            last_start == v@.len() - sub@.len(),
            i <= last_start,
            forall|j: int| 0 <= j < i ==> !has_sub_at(v@, sub@, j),
        decreases last_start - i,
    {
        if match_at(v, sub, i) {
            return Some(i);
        }
        i += 1;
    }
    if match_at(v, sub, last_start) {
        return Some(last_start);
    }
    assert(forall|j: int| j > last_start ==> !has_sub_at(v@, sub@, j));
    None
}

/// Does `sub` occur inside `v`?
pub fn contains_sub_exec(v: &Vec<char>, sub: &Vec<char>) -> (r: bool)
    ensures
        r == contains_sub(v@, sub@),
{
    match find_sub(v, sub) {
        Some(_) => true,
        None => false,
    }
}

/// Does the character occur in `v`?
pub fn find_char(v: &Vec<char>, c: char) -> (r: bool)
    ensures
        r == contains_char(v@, c),
{
    let mut i: usize = 0;
    while i < v.len()
        invariant
            i <= v.len(),
            forall|j: int| 0 <= j < i ==> v@[j] != c,
        decreases v.len() - i,
    {
        if v[i] == c {
            return true;
        }
        i += 1;
    }
    false
}

/// Copy of `v` with every `from` turned into `to`.
pub fn replace_chars(v: &Vec<char>, from: char, to: char) -> (r: Vec<char>)
    ensures
        r@ == replace_seq(v@, from, to),
{
    let mut r: Vec<char> = Vec::new();
    let mut i: usize = 0;
    assert(v@.subrange(0, 0) =~= Seq::<char>::empty());
    while i < v.len()
        invariant
            i <= v.len(),
            r@ == replace_seq(v@.subrange(0, i as int), from, to),
        decreases v.len() - i,
    {
        assert(v@.subrange(0, i + 1 as int).drop_last() =~= v@.subrange(0, i as int));
        let c = v[i];
        if c == from {
            r.push(to);
        } else {
            r.push(c);
        }
        i += 1;
    }
    assert(v@.subrange(0, v@.len() as int) =~= v@);
    r
}

/// Copy of `v` with every `c` removed.
pub fn remove_chars(v: &Vec<char>, c: char) -> (r: Vec<char>)
    ensures
        r@ == remove_seq(v@, c),
{
    let mut r: Vec<char> = Vec::new();
    let mut i: usize = 0;
    assert(v@.subrange(0, 0) =~= Seq::<char>::empty());
    while i < v.len()
        invariant
            i <= v.len(),
            r@ == remove_seq(v@.subrange(0, i as int), c),
        decreases v.len() - i,
    {
        assert(v@.subrange(0, i + 1 as int).drop_last() =~= v@.subrange(0, i as int));
        let x = v[i];
        if x != c {
            r.push(x);
        }
        i += 1;
    }
    assert(v@.subrange(0, v@.len() as int) =~= v@);
    r
}

/// The characters of `v` without leading and trailing whitespace.
#[verifier::rlimit(30)]
pub fn trim_chars(v: &Vec<char>) -> (r: Vec<char>)
    ensures
        r@ == trim_spec(v@),
{
    let mut a: usize = 0;
    assert(v@.subrange(0, v@.len() as int) =~= v@);
    while a < v.len() && is_ws_exec(v[a])
        invariant
            a <= v@.len(),
            trim_spec(v@) == trim_spec(v@.subrange(a as int, v@.len() as int)),
        decreases v.len() - a,
    {
        assert(v@.subrange(a as int, v@.len() as int).drop_first() =~= v@.subrange(
            a + 1 as int,
            v@.len() as int,
        ));
        a += 1;
    }
    let mut b: usize = v.len();
    while b > a && is_ws_exec(v[b - 1])
        invariant
            a <= b <= v@.len(),
            a < v@.len() ==> !is_ws(v@[a as int]) || b == a,
            trim_spec(v@) == trim_spec(v@.subrange(a as int, b as int)),
            b > a ==> !is_ws(v@[a as int]),
        decreases b,
    {
        assert(v@.subrange(a as int, b as int).drop_last() =~= v@.subrange(
            a as int,
            b - 1 as int,
        ));
        b -= 1;
    }
    let mut r: Vec<char> = Vec::new();
    let mut k: usize = a;
    while k < b
        invariant
            a <= k <= b <= v@.len(),
            r@ == v@.subrange(a as int, k as int),
        decreases b - k,
    {
        r.push(v[k]);
        assert(r@ =~= v@.subrange(a as int, k + 1 as int));
        k += 1;
    }
    assert(r@ == v@.subrange(a as int, b as int));
    r
}

/// Does `s` begin with `p`?
pub fn str_starts_with(s: &str, p: &str) -> (r: bool)
    ensures
        r == starts_with_spec(s@, p@),
{
    let n = s.unicode_len();
    let m = p.unicode_len();
    if m > n {
        return false;
    }
    let mut i: usize = 0;
    while i < m
        invariant
            n == s@.len(),
            m == p@.len(),
            m <= n,
            i <= m,
            forall|j: int| 0 <= j < i ==> s@[j] == p@[j],
        decreases m - i,
    {
        if s.get_char(i) != p.get_char(i) {
            assert(s@.subrange(0, p@.len() as int)[i as int] != p@[i as int]);
            return false;
        }
        i += 1;
    }
    assert(s@.subrange(0, p@.len() as int) =~= p@);
    true
}

/// Every character of a decimal rendering is a digit, and there is one.
pub proof fn lemma_dec_str_digits(n: nat)
    ensures
        all_digits(dec_str(n)),
        dec_str(n).len() >= 1,
    decreases n,
{
    if n < 10 {
        assert(is_digit(digit_char(n)));
    } else {
        lemma_dec_str_digits(n / 10);
        assert(is_digit(digit_char(n % 10)));
        assert forall|i: int| 0 <= i < dec_str(n).len() implies is_digit(
            #[trigger] dec_str(n)[i],
        ) by {
            if i < dec_str(n / 10).len() {
                assert(dec_str(n)[i] == dec_str(n / 10)[i]);
            }
        }
    }
}

/// Reading the decimal rendering back gives the number.
pub proof fn lemma_dec_val_dec_str(n: nat)
    ensures
        dec_val(dec_str(n)) == n,
    decreases n,
{
    if n < 10 {
        assert(dec_val(Seq::<char>::empty()) == 0);
        assert(seq![digit_char(n)].drop_last() =~= Seq::<char>::empty());
        assert(seq![digit_char(n)].last() == digit_char(n));
        assert(digit_val(digit_char(n)) == n);
        assert(dec_val(dec_str(n)) == n);
    } else {
        lemma_dec_val_dec_str(n / 10);
        let s = dec_str(n / 10);
        let d = digit_char((n % 10) as nat);
        let x = s.push(d);
        assert(dec_str(n) == x);
        assert(x.len() == s.len() + 1);
        assert(x.drop_last() =~= s);
        assert(x[s.len() as int] == d);
        assert(x.last() == d);
        assert(dec_val(x) == dec_val(x.drop_last()) * 10 + digit_val(x.last()));
        assert(dec_val(x) == dec_val(s) * 10 + digit_val(d));
        assert(digit_val(d) == n % 10);
        vstd::arithmetic::div_mod::lemma_fundamental_div_mod(n as int, 10);
        assert(n == 10 * (n / 10) + n % 10);
        assert(dec_val(dec_str(n)) == n);
    }
}

/// The decimal digit character for a value below ten.
pub fn digit_exec(d: u8) -> (c: char)
    requires
        d < 10,
    ensures
        c == digit_char(d as nat),
{
    char_of_u32('0' as u32 + d as u32)
}


/// A sequence free of the separator splits to the single group `cur + s`.
pub proof fn lemma_split_aux_no_sep(s: Seq<char>, sep: char, cur: Seq<char>)
    requires
        forall|i: int| 0 <= i < s.len() ==> s[i] != sep,
    ensures
        split_aux(s, sep, cur) == seq![cur + s],
    decreases s.len(),
{
    if s.len() == 0 {
        assert(cur + s =~= cur);
    } else {
        assert(forall|i: int| 0 <= i < s.drop_first().len() ==> #[trigger] s.drop_first()[i]
            != sep);
        lemma_split_aux_no_sep(s.drop_first(), sep, cur.push(s[0]));
        assert(cur.push(s[0]) + s.drop_first() =~= cur + s);
    }
}

/// Splitting a sequence that opens with a separator-free part peels exactly
/// one group off the front.
pub proof fn lemma_split_aux_concat(a: Seq<char>, sep: char, rest: Seq<char>, cur: Seq<char>)
    requires
        forall|i: int| 0 <= i < a.len() ==> a[i] != sep,
    ensures
        split_aux(a + seq![sep] + rest, sep, cur) == seq![cur + a] + split_aux(
            rest,
            sep,
            Seq::<char>::empty(),
        ),
    decreases a.len(),
{
    let s = a + seq![sep] + rest;
    if a.len() == 0 {
        assert(s[0] == sep);
        assert(s.drop_first() =~= rest);
        assert(cur + a =~= cur);
    } else {
        assert(s[0] == a[0]);
        assert(forall|i: int| 0 <= i < a.drop_first().len() ==> #[trigger] a.drop_first()[i]
            != sep);
        lemma_split_aux_concat(a.drop_first(), sep, rest, cur.push(a[0]));
        assert(s.drop_first() =~= a.drop_first() + seq![sep] + rest);
        assert(cur.push(a[0]) + a.drop_first() =~= cur + a);
    }
}



/// Splitting yields at least one group.
pub proof fn lemma_split_aux_len(s: Seq<char>, sep: char, cur: Seq<char>)
    ensures
        split_aux(s, sep, cur).len() >= 1,
    decreases s.len(),
{
    if s.len() > 0 && s[0] != sep {
        lemma_split_aux_len(s.drop_first(), sep, cur.push(s[0]));
    }
}


/// A copy of the characters between two positions.
pub fn copy_range(v: &Vec<char>, a: usize, b: usize) -> (r: Vec<char>)
    requires
        a <= b <= v@.len(),
    ensures
        r@ == v@.subrange(a as int, b as int),
{
    let mut r: Vec<char> = Vec::new();
    let mut k: usize = a;
    while k < b
        invariant
            a <= k <= b <= v@.len(),
            r@ == v@.subrange(a as int, k as int),
        decreases b - k,
    {
        r.push(v[k]);
        assert(r@ =~= v@.subrange(a as int, k + 1 as int));
        k += 1;
    }
    r
}

/// A substring has only one first position.
pub proof fn lemma_sub_first_at_unique(s: Seq<char>, sub: Seq<char>, i: int, j: int)
    requires
        sub_first_at(s, sub, i),
        sub_first_at(s, sub, j),
    ensures
        i == j,
{
    if i < j {
        assert(has_sub_at(s, sub, i));
    } else if j < i {
        assert(has_sub_at(s, sub, j));
    }
}

/// `p` is the first position of character `c` in `s`.
pub open spec fn char_first_at(s: Seq<char>, c: char, p: int) -> bool {
    0 <= p < s.len() && s[p] == c && forall|j: int| 0 <= j < p ==> s[j] != c
}

/// A character has only one first position.
pub proof fn lemma_char_first_at_unique(s: Seq<char>, c: char, p: int, q: int)
    requires
        char_first_at(s, c, p),
        char_first_at(s, c, q),
    ensures
        p == q,
{
}

/// The first position of a character, if it occurs at all.
pub fn find_char_at(v: &Vec<char>, c: char) -> (r: Option<usize>)
    ensures
        match r {
            Some(p) => char_first_at(v@, c, p as int),
            None => !contains_char(v@, c),
        },
{
    let mut i: usize = 0;
    while i < v.len()
        invariant
            i <= v.len(),
            forall|j: int| 0 <= j < i ==> v@[j] != c,
        decreases v.len() - i,
    {
        if v[i] == c {
            return Some(i);
        }
        i += 1;
    }
    None
}

} // verus!
