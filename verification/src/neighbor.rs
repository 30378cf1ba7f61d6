//! Neighbor-table parsing: find the hardware address for a probed address
//! in the tabular output of the platform's neighbor listing. Each platform
//! has its own column layout; placeholder and incomplete entries are
//! filtered out. No new probe is made here: this reads captured text.

use vstd::prelude::*;
use crate::strutil::{
    char_first_at, chars_eq, chars_string, contains_char, contains_sub, contains_sub_exec,
    find_char, lemma_char_first_at_unique, replace_chars, replace_seq, split_chars, split_on,
    str_chars, tokens, tokens_chars, upper_chars, upper_seq,
};

verus! {

/// What one line of the arp-style listing yields: on the line mentioning
/// the probed address, the fourth column is the hardware address, accepted
/// only when it holds a colon.
pub open spec fn arp_line_mac(ip: Seq<char>, line: Seq<char>) -> Option<Seq<char>> {
    if contains_sub(line, ip) && tokens(line).len() >= 4 && contains_char(tokens(line)[3], ':') {
        Some(upper_seq(tokens(line)[3]))
    } else {
        None
    }
}

/// The first line that yields a hardware address, scanned top to bottom.
pub open spec fn arp_table_mac(ip: Seq<char>, lines: Seq<Seq<char>>) -> Option<Seq<char>>
    decreases lines.len(),
{
    if lines.len() == 0 {
        None
    } else {
        match arp_line_mac(ip, lines[0]) {
            Some(m) => Some(m),
            None => arp_table_mac(ip, lines.drop_first()),
        }
    }
}

/// Parse arp-style output (fourth whitespace column holds the address).
pub fn parse_neighbor_arp(ip: &str, output: &str) -> (r: Option<String>)
    ensures
        match r {
            Some(m) => arp_table_mac(ip@, split_on(output@, '\n')) == Some(m@),
            None => arp_table_mac(ip@, split_on(output@, '\n')) is None,
        },
{
    let ipv = str_chars(ip);
    let ov = str_chars(output);
    let lines = split_chars(&ov, '\n');
    proof {
        assert(lines.deep_view().len() == lines@.len());
    }
    let ghost all = split_on(output@, '\n');
    let n = lines.len();
    let mut i: usize = 0;
    assert(all.subrange(0, n as int) =~= all);
    while i < n
        invariant
            all == split_on(output@, '\n'),
            ipv@ == ip@,
            n == lines@.len(),
            n == all.len(),
            i <= n,
            lines.deep_view() == all,
            arp_table_mac(ip@, all) == arp_table_mac(ip@, all.subrange(i as int, n as int)),
        decreases n - i,
    {
        let ghost rem = all.subrange(i as int, n as int);
        proof {
            assert(lines@[i as int].deep_view() =~= lines@[i as int]@);
            assert(lines@[i as int]@ == all[i as int]);
            assert(rem[0] == all[i as int]);
            assert(rem.drop_first() =~= all.subrange(i + 1 as int, n as int));
        }
        let ghost line = all[i as int];
        if contains_sub_exec(&lines[i], &ipv) {
            let toks = tokens_chars(&lines[i]);
            proof {
                assert(toks.deep_view().len() == toks@.len());
            }
            if toks.len() >= 4 {
                proof {
                    assert(toks@[3].deep_view() =~= toks@[3]@);
                    assert(toks@[3]@ == tokens(line)[3]);
                }
                if find_char(&toks[3], ':') {
                    let mac = upper_chars(&toks[3]);
                    assert(arp_line_mac(ip@, line) == Some(mac@));
                    return Some(chars_string(&mac));
                }
            }
        }
        assert(arp_line_mac(ip@, line) is None);
        i += 1;
    }
    assert(all.subrange(n as int, n as int) =~= Seq::<Seq<char>>::empty());
    None
}

/// Is there a link-layer marker token with a token after it?
pub open spec fn has_lladdr(line: Seq<char>) -> bool {
    exists|j: int| 0 <= j < tokens(line).len() - 1 && tokens(line)[j] == "lladdr"@
}

/// The first link-layer marker token that has a token after it.
pub open spec fn lladdr_first(line: Seq<char>) -> int {
    choose|j: int|
        0 <= j < tokens(line).len() - 1 && tokens(line)[j] == "lladdr"@ && (forall|k: int|
            0 <= k < j ==> tokens(line)[k] != "lladdr"@)
}

/// What one line of the neighbor listing yields: on the line mentioning the
/// probed address, the token after the first link-layer marker.
pub open spec fn neigh_line_mac(ip: Seq<char>, line: Seq<char>) -> Option<Seq<char>> {
    if contains_sub(line, ip) && has_lladdr(line) {
        Some(upper_seq(tokens(line)[lladdr_first(line) + 1]))
    } else {
        None
    }
}

/// The first line that yields a hardware address, scanned top to bottom.
pub open spec fn neigh_table_mac(ip: Seq<char>, lines: Seq<Seq<char>>) -> Option<Seq<char>>
    decreases lines.len(),
{
    if lines.len() == 0 {
        None
    } else {
        match neigh_line_mac(ip, lines[0]) {
            Some(m) => Some(m),
            None => neigh_table_mac(ip, lines.drop_first()),
        }
    }
}

/// A marker position found by a front-to-back scan is the chosen one.
proof fn lemma_lladdr_first_is(line: Seq<char>, j: int)
    requires
        0 <= j < tokens(line).len() - 1,
        tokens(line)[j] == "lladdr"@,
        forall|k: int| 0 <= k < j ==> tokens(line)[k] != "lladdr"@,
    ensures
        lladdr_first(line) == j,
{
    let c = lladdr_first(line);
    assert(0 <= c < tokens(line).len() - 1 && tokens(line)[c] == "lladdr"@ && (forall|k: int|
        0 <= k < c ==> tokens(line)[k] != "lladdr"@));
}

/// Parse neighbor-listing output (the address follows a marker token).
pub fn parse_neighbor_lladdr(ip: &str, output: &str) -> (r: Option<String>)
    ensures
        match r {
            Some(m) => neigh_table_mac(ip@, split_on(output@, '\n')) == Some(m@),
            None => neigh_table_mac(ip@, split_on(output@, '\n')) is None,
        },
{
    let ipv = str_chars(ip);
    let marker = str_chars("lladdr");
    let ov = str_chars(output);
    let lines = split_chars(&ov, '\n');
    proof {
        assert(lines.deep_view().len() == lines@.len());
    }
    let ghost all = split_on(output@, '\n');
    let n = lines.len();
    let mut i: usize = 0;
    assert(all.subrange(0, n as int) =~= all);
    while i < n
        invariant
            all == split_on(output@, '\n'),
            ipv@ == ip@,
            marker@ == "lladdr"@,
            n == lines@.len(),
            n == all.len(),
            i <= n,
            lines.deep_view() == all,
            neigh_table_mac(ip@, all) == neigh_table_mac(ip@, all.subrange(i as int, n as int)),
        decreases n - i,
    {
        let ghost rem = all.subrange(i as int, n as int);
        proof {
            assert(lines@[i as int].deep_view() =~= lines@[i as int]@);
            assert(lines@[i as int]@ == all[i as int]);
            assert(rem[0] == all[i as int]);
            assert(rem.drop_first() =~= all.subrange(i + 1 as int, n as int));
        }
        let ghost line = all[i as int];
        if contains_sub_exec(&lines[i], &ipv) {
            let toks = tokens_chars(&lines[i]);
            proof {
                assert(toks.deep_view().len() == toks@.len());
            }
            let tn = toks.len();
            let mut j: usize = 0;
            while j < tn
                invariant
                    all == split_on(output@, '\n'),
                    n == all.len(),
                    i < n,
                    rem == all.subrange(i as int, n as int),
                    rem[0] == line,
                    neigh_table_mac(ip@, all) == neigh_table_mac(ip@, rem),
                    contains_sub(line, ip@),
                    marker@ == "lladdr"@,
                    toks.deep_view() == tokens(line),
                    tn == toks@.len(),
                    j <= tn,
                    forall|k: int| 0 <= k < j ==> tokens(line)[k] != "lladdr"@
                        || k >= tokens(line).len() - 1,
                decreases tn - j,
            {
                proof {
                    assert(toks@[j as int].deep_view() =~= toks@[j as int]@);
                    assert(toks@[j as int]@ == tokens(line)[j as int]);
                }
                if chars_eq(&toks[j], &marker) && j + 1 < tn {
                    proof {
                        assert forall|k: int| 0 <= k < j implies tokens(line)[k] != "lladdr"@ by {
                            if tokens(line)[k] == "lladdr"@ {
                                assert(k >= tokens(line).len() - 1);
                            }
                        }
                        lemma_lladdr_first_is(line, j as int);
                        assert(toks@[j + 1].deep_view() =~= toks@[j + 1]@);
                        assert(toks@[j + 1]@ == tokens(line)[j + 1]);
                    }
                    let mac = upper_chars(&toks[j + 1]);
                    assert(neigh_line_mac(ip@, line) == Some(mac@));
                    return Some(chars_string(&mac));
                }
                j += 1;
            }
            proof {
                assert(!has_lladdr(line));
            }
        }
        assert(neigh_line_mac(ip@, line) is None);
        i += 1;
    }
    assert(all.subrange(n as int, n as int) =~= Seq::<Seq<char>>::empty());
    None
}

/// What one line of the tabular arp listing yields: on the line mentioning
/// the probed address, the second column, accepted when it looks like a
/// hardware address (a separator present and seventeen characters once
/// hyphens become colons).
pub open spec fn table_line_mac(ip: Seq<char>, line: Seq<char>) -> Option<Seq<char>> {
    if contains_sub(line, ip) && tokens(line).len() >= 2 && (contains_char(tokens(line)[1], '-')
        || contains_char(tokens(line)[1], ':')) && replace_seq(tokens(line)[1], '-', ':').len()
        >= 17 {
        Some(upper_seq(replace_seq(tokens(line)[1], '-', ':')))
    } else {
        None
    }
}

/// The first line that yields a hardware address, scanned top to bottom.
pub open spec fn table_table_mac(ip: Seq<char>, lines: Seq<Seq<char>>) -> Option<Seq<char>>
    decreases lines.len(),
{
    if lines.len() == 0 {
        None
    } else {
        match table_line_mac(ip, lines[0]) {
            Some(m) => Some(m),
            None => table_table_mac(ip, lines.drop_first()),
        }
    }
}

/// Parse tabular arp output (second whitespace column holds the address,
/// hyphen-separated).
pub fn parse_neighbor_table(ip: &str, output: &str) -> (r: Option<String>)
    ensures
        match r {
            Some(m) => table_table_mac(ip@, split_on(output@, '\n')) == Some(m@),
            None => table_table_mac(ip@, split_on(output@, '\n')) is None,
        },
{
    let ipv = str_chars(ip);
    let ov = str_chars(output);
    let lines = split_chars(&ov, '\n');
    proof {
        assert(lines.deep_view().len() == lines@.len());
    }
    let ghost all = split_on(output@, '\n');
    let n = lines.len();
    let mut i: usize = 0;
    assert(all.subrange(0, n as int) =~= all);
    while i < n
        invariant
            all == split_on(output@, '\n'),
            ipv@ == ip@,
            n == lines@.len(),
            n == all.len(),
            i <= n,
            lines.deep_view() == all,
            table_table_mac(ip@, all) == table_table_mac(ip@, all.subrange(i as int, n as int)),
        decreases n - i,
    {
        let ghost rem = all.subrange(i as int, n as int);
        proof {
            assert(lines@[i as int].deep_view() =~= lines@[i as int]@);
            assert(lines@[i as int]@ == all[i as int]);
            assert(rem[0] == all[i as int]);
            assert(rem.drop_first() =~= all.subrange(i + 1 as int, n as int));
        }
        let ghost line = all[i as int];
        if contains_sub_exec(&lines[i], &ipv) {
            let toks = tokens_chars(&lines[i]);
            proof {
                assert(toks.deep_view().len() == toks@.len());
            }
            if toks.len() >= 2 {
                proof {
                    assert(toks@[1].deep_view() =~= toks@[1]@);
                    assert(toks@[1]@ == tokens(line)[1]);
                }
                if find_char(&toks[1], '-') || find_char(&toks[1], ':') {
                    let mac = replace_chars(&toks[1], '-', ':');
                    if mac.len() >= 17 {
                        let up = upper_chars(&mac);
                        assert(table_line_mac(ip@, line) == Some(up@));
                        return Some(chars_string(&up));
                    }
                }
            }
        }
        assert(table_line_mac(ip@, line) is None);
        i += 1;
    }
    assert(all.subrange(n as int, n as int) =~= Seq::<Seq<char>>::empty());
    None
}

} // verus!
