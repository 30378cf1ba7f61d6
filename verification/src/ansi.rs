//! Terminal-control cleaning: ANSI/VT escape sequences are removed and
//! carriage returns dropped, so raw control bytes never reach a consumer.

use vstd::prelude::*;

verus! {

/// The escape character opening a terminal control sequence.
pub open spec fn esc() -> char {
    '\x1b'
}

/// An ASCII letter, which terminates a bracketed escape sequence.
pub open spec fn is_alpha(c: char) -> bool {
    ('a' <= c && c <= 'z') || ('A' <= c && c <= 'Z')
}

/// The index just past the first ASCII letter at or after `i`, or the end of
/// the sequence when no letter follows: how far a bracketed escape reaches.
pub open spec fn ansi_skip(s: Seq<char>, i: int) -> int
    decreases s.len() - i,
    when 0 <= i
{
    if i >= s.len() {
        s.len() as int
    } else if is_alpha(s[i]) {
        i + 1
    } else {
        ansi_skip(s, i + 1)
    }
}

/// The skip target stays inside the sequence.
pub proof fn lemma_ansi_skip_bounds(s: Seq<char>, i: int)
    requires
        0 <= i <= s.len(),
    ensures
        i <= ansi_skip(s, i) <= s.len(),
    decreases s.len() - i,
{
    if i < s.len() && !is_alpha(s[i]) {
        lemma_ansi_skip_bounds(s, i + 1);
    }
}

/// Cleaned text: an escape followed by `[` consumes everything up to and
/// including the next letter, a bare escape is dropped, carriage returns are
/// dropped, and all other characters are kept.
pub open spec fn strip_ansi(s: Seq<char>) -> Seq<char>
    decreases s.len(),
    via strip_ansi_decreases
{
    if s.len() == 0 {
        s
    } else if s[0] == esc() {
        if s.len() >= 2 && s[1] == '[' {
            strip_ansi(s.subrange(ansi_skip(s, 2), s.len() as int))
        } else {
            strip_ansi(s.drop_first())
        }
    } else if s[0] == '\r' {
        strip_ansi(s.drop_first())
    } else {
        seq![s[0]] + strip_ansi(s.drop_first())
    }
}

#[via_fn]
proof fn strip_ansi_decreases(s: Seq<char>) {
    if s.len() >= 2 && s[0] == esc() && s[1] == '[' {
        lemma_ansi_skip_bounds(s, 2);
    }
}

/// Free of the escape character and of carriage returns.
pub open spec fn no_ctl(s: Seq<char>) -> bool {
    forall|i: int| 0 <= i < s.len() ==> #[trigger] s[i] != esc() && s[i] != '\r'
}

/// Cleaned text holds no escape character and no carriage return.
pub proof fn lemma_strip_ansi_no_ctl(s: Seq<char>)
    ensures
        no_ctl(strip_ansi(s)),
    decreases s.len(),
{
    if s.len() == 0 {
    } else if s[0] == esc() {
        if s.len() >= 2 && s[1] == '[' {
            lemma_ansi_skip_bounds(s, 2);
            lemma_strip_ansi_no_ctl(s.subrange(ansi_skip(s, 2), s.len() as int));
        } else {
            lemma_strip_ansi_no_ctl(s.drop_first());
        }
    } else if s[0] == '\r' {
        lemma_strip_ansi_no_ctl(s.drop_first());
    } else {
        lemma_strip_ansi_no_ctl(s.drop_first());
        let t = seq![s[0]] + strip_ansi(s.drop_first());
        assert forall|i: int| 0 <= i < t.len() implies #[trigger] t[i] != esc() && t[i]
            != '\r' by {
            if i == 0 {
                assert(t[0] == s[0]);
            } else {
                assert(t[i] == strip_ansi(s.drop_first())[i - 1]);
            }
        }
    }
}

/// Text with no escape character and no carriage return is already clean.
pub proof fn lemma_strip_ansi_clean(s: Seq<char>)
    requires
        no_ctl(s),
    ensures
        strip_ansi(s) == s,
    decreases s.len(),
{
    if s.len() == 0 {
    } else {
        assert(forall|i: int| 0 <= i < s.drop_first().len() ==> #[trigger] s.drop_first()[i]
            != esc() && s.drop_first()[i] != '\r');
        lemma_strip_ansi_clean(s.drop_first());
        assert(seq![s[0]] + s.drop_first() =~= s);
    }
}

/// Cleaning is idempotent: cleaning already-clean text returns it unchanged.
pub proof fn lemma_strip_ansi_idempotent(s: Seq<char>)
    ensures
        strip_ansi(strip_ansi(s)) == strip_ansi(s),
{
    lemma_strip_ansi_no_ctl(s);
    lemma_strip_ansi_clean(strip_ansi(s));
}

/// Remove ANSI/VT escape sequences and carriage returns from captured text.
pub fn strip_ansi_codes(s: &str) -> (r: String)
    ensures
        r@ == strip_ansi(s@),
{
    let v = crate::strutil::str_chars(s);
    let n = v.len();
    let mut out: Vec<char> = Vec::new();
    let mut i: usize = 0;
    assert(v@.subrange(0, n as int) =~= v@);
    assert(out@ + strip_ansi(v@) =~= strip_ansi(v@));
    while i < n
        invariant
            n == v@.len(),
            i <= n,
            strip_ansi(v@) == out@ + strip_ansi(v@.subrange(i as int, n as int)),
        decreases n - i,
    {
        let ghost rem = v@.subrange(i as int, n as int);
        assert(rem.drop_first() =~= v@.subrange(i + 1 as int, n as int));
        let c = v[i];
        if c == '\x1b' {
            if i + 1 < n && v[i + 1] == '[' {
                let mut j: usize = i + 2;
                proof {
                    lemma_ansi_skip_bounds(rem, 2);
                }
                while j < n && !((('a' <= v[j] && v[j] <= 'z') || ('A' <= v[j] && v[j] <= 'Z')))
                    invariant
                        n == v@.len(),
                        i + 2 <= j,
                        j <= n,
                        rem == v@.subrange(i as int, n as int),
                        ansi_skip(rem, 2) == ansi_skip(rem, j - i),
                    decreases n - j,
                {
                    assert(rem[j - i] == v@[j as int]);
                    j += 1;
                }
                proof {
                    lemma_ansi_skip_bounds(rem, 2);
                    if j < n {
                        assert(rem[j - i] == v@[j as int]);
                        assert(ansi_skip(rem, j - i) == j - i + 1);
                    } else {
                        assert(ansi_skip(rem, j - i) == rem.len());
                    }
                }
                let next = if j < n {
                    j + 1
                } else {
                    j
                };
                assert(rem.subrange(ansi_skip(rem, 2), rem.len() as int) =~= v@.subrange(
                    next as int,
                    n as int,
                ));
                i = next;
            } else {
                i += 1;
            }
        } else if c == '\r' {
            i += 1;
        } else {
            out.push(c);
            assert(out@ + strip_ansi(v@.subrange(i + 1 as int, n as int)) =~= strip_ansi(v@));
            i += 1;
        }
    }
    assert(v@.subrange(n as int, n as int) =~= Seq::<char>::empty());
    assert(out@ =~= strip_ansi(v@));
    crate::strutil::chars_string(&out)
}

} // verus!
