//! Vendor Resolver: maps a hardware address prefix to a manufacturer name
//! using an explicitly constructed lookup table, built once from a
//! compiled-in baseline and an optional override source.

use vstd::prelude::*;
use crate::strutil::{
    ascii_upper, chars_eq, chars_string, contains_sub, copy_range, find_sub, lemma_split_aux_len,
    lemma_sub_first_at_unique, remove_chars, remove_seq, split_aux, split_chars, split_on,
    str_chars, sub_first_at, tokens, tokens_chars, trim_chars, trim_spec, upper_chars, upper_seq,
};

verus! {

/// The value the first entry with the given key holds, if any: entries are
/// searched front to back, so an entry placed in front shadows a later one.
pub open spec fn spec_find(entries: Seq<(Seq<char>, Seq<char>)>, key: Seq<char>) -> Option<
    Seq<char>,
>
    decreases entries.len(),
{
    if entries.len() == 0 {
        None
    } else if entries[0].0 == key {
        Some(entries[0].1)
    } else {
        spec_find(entries.drop_first(), key)
    }
}

/// Entries with keys other than `key` do not decide the lookup.
proof fn lemma_spec_find_skip(entries: Seq<(Seq<char>, Seq<char>)>, i: int, key: Seq<char>)
    requires
        0 <= i <= entries.len(),
        forall|j: int| 0 <= j < i ==> (#[trigger] entries[j]).0 != key,
    ensures
        spec_find(entries, key) == spec_find(entries.subrange(i, entries.len() as int), key),
    decreases i,
{
    if i == 0 {
        assert(entries.subrange(0, entries.len() as int) =~= entries);
    } else {
        assert(entries[0].0 != key);
        lemma_spec_find_skip(entries.drop_first(), i - 1, key);
        assert(entries.drop_first() =~= entries.subrange(1, entries.len() as int));
        assert(entries.drop_first().subrange(i - 1, entries.drop_first().len() as int)
            =~= entries.subrange(i, entries.len() as int));
    }
}

/// The vendor lookup table: an association list searched front to back.
/// It is immutable after construction and shared read-only by the probers.
pub struct OuiTable {
    entries: Vec<(String, String)>,
}

impl View for OuiTable {
    type V = Seq<(Seq<char>, Seq<char>)>;

    closed spec fn view(&self) -> Seq<(Seq<char>, Seq<char>)> {
        Seq::new(self.entries@.len(), |i: int| (self.entries@[i].0@, self.entries@[i].1@))
    }
}

impl OuiTable {
    /// An empty table.
    pub fn new() -> (r: OuiTable)
        ensures
            r@ == Seq::<(Seq<char>, Seq<char>)>::empty(),
    {
        let r = OuiTable { entries: Vec::new() };
        assert(r@ =~= Seq::<(Seq<char>, Seq<char>)>::empty());
        r
    }

    /// Append an entry behind all existing ones: earlier entries keep
    /// priority over it.
    pub fn push_entry(&mut self, key: String, value: String)
        ensures
            final(self)@ == old(self)@ + seq![(key@, value@)],
    {
        let ghost k = key@;
        let ghost v = value@;
        self.entries.push((key, value));
        assert(self@ =~= old(self)@ + seq![(k, v)]);
    }

    /// Place an entry in front of all existing ones: under front-to-back
    /// search it replaces any entry with the same key.
    pub fn insert(&mut self, key: String, value: String)
        ensures
            final(self)@ == seq![(key@, value@)] + old(self)@,
            spec_find(final(self)@, key@) == Some(value@),
            forall|k: Seq<char>| k != key@ ==> spec_find(final(self)@, k) == spec_find(
                old(self)@,
                k,
            ),
    {
        let ghost k = key@;
        let ghost v = value@;
        self.entries.insert(0, (key, value));
        assert(self@ =~= seq![(k, v)] + old(self)@);
        proof {
            assert(self@.drop_first() =~= old(self)@);
            assert forall|key2: Seq<char>| key2 != k implies spec_find(self@, key2) == spec_find(
                old(self)@,
                key2,
            ) by {
                assert(self@[0].0 == k);
            }
        }
    }

    /// Find the value of the first entry with this key.
    pub fn lookup(&self, key: &String) -> (r: Option<String>)
        ensures
            match r {
                Some(v) => spec_find(self@, key@) == Some(v@),
                None => spec_find(self@, key@) is None,
            },
    {
        let n = self.entries.len();
        let mut i: usize = 0;
        while i < n
            invariant
                n == self@.len(),
                i <= n,
                forall|j: int| 0 <= j < i ==> (#[trigger] self@[j]).0 != key@,
            decreases n - i,
        {
            if self.entries[i].0 == *key {
                proof {
                    lemma_spec_find_skip(self@, i as int, key@);
                    assert(self@.subrange(i as int, n as int)[0] == self@[i as int]);
                }
                let r = self.entries[i].1.clone();
                return Some(r);
            }
            i += 1;
        }
        proof {
            lemma_spec_find_skip(self@, n as int, key@);
            assert(self@.subrange(n as int, n as int) =~= Seq::<(Seq<char>, Seq<char>)>::empty());
        }
        None
    }
}

/// The colon-separated groups of a hardware address.
pub open spec fn mac_groups(mac: Seq<char>) -> Seq<Seq<char>> {
    split_on(mac, ':')
}

/// One octet group, upper-cased and zero-padded when it is a single character.
pub open spec fn pad_octet(g: Seq<char>) -> Seq<char> {
    if g.len() == 1 {
        seq!['0'] + upper_seq(g)
    } else {
        upper_seq(g)
    }
}

/// The six-character lookup prefix: the first three octet groups (or all of
/// them, when fewer), upper-cased, each padded to two characters, joined.
pub open spec fn normalized_prefix(mac: Seq<char>) -> Seq<char> {
    let gs = mac_groups(mac);
    if gs.len() == 1 {
        pad_octet(gs[0])
    } else if gs.len() == 2 {
        pad_octet(gs[0]) + pad_octet(gs[1])
    } else {
        pad_octet(gs[0]) + pad_octet(gs[1]) + pad_octet(gs[2])
    }
}

/// The first three octet groups exactly as written, joined by colons: what a
/// fallback label shows.
pub open spec fn original_prefix(mac: Seq<char>) -> Seq<char> {
    let gs = mac_groups(mac);
    if gs.len() == 1 {
        gs[0]
    } else if gs.len() == 2 {
        gs[0] + seq![':'] + gs[1]
    } else {
        gs[0] + seq![':'] + gs[1] + seq![':'] + gs[2]
    }
}

/// Upper-case an octet group and pad a single character with a leading zero.
fn pad_octet_exec(g: &Vec<char>) -> (r: Vec<char>)
    ensures
        r@ == pad_octet(g@),
{
    let u = upper_chars(g);
    if u.len() == 1 {
        let mut r: Vec<char> = Vec::new();
        r.push('0');
        r.push(u[0]);
        assert(r@ =~= seq!['0'] + upper_seq(g@));
        r
    } else {
        u
    }
}

/// What resolution yields: the sentinel resolves to itself; otherwise the
/// normalized prefix is looked up, and a miss produces a fallback label
/// embedding the original (non-padded) three-octet prefix.
pub open spec fn resolved_vendor(t: Seq<(Seq<char>, Seq<char>)>, mac: Seq<char>) -> Seq<char> {
    if mac == "Unknown"@ {
        "Unknown"@
    } else {
        match spec_find(t, normalized_prefix(mac)) {
            Some(v) => v,
            None => "Unknown ("@ + original_prefix(mac) + ")"@,
        }
    }
}

/// Resolve a hardware address to a manufacturer name.
///
/// The sentinel `"Unknown"` resolves to itself. Otherwise the address's
/// normalized six-character prefix is looked up; on a miss the result is a
/// fallback label embedding the original (non-padded) three-octet prefix.
pub fn get_manufacturer(mac: &str, table: &OuiTable) -> (r: String)
    ensures
        r@ == resolved_vendor(table@, mac@),
{
    let mv = str_chars(mac);
    let unknown = str_chars("Unknown");
    if chars_eq(&mv, &unknown) {
        return "Unknown".to_owned();
    }
    let groups = split_chars(&mv, ':');
    proof {
        assert(groups.deep_view().len() == groups@.len());
        crate::strutil::lemma_split_aux_len(mv@, ':', Seq::<char>::empty());
        assert(groups@.len() >= 1);
        assert(groups@[0].deep_view() =~= groups@[0]@);
        assert(groups@[0]@ == mac_groups(mac@)[0]);
    }
    let mut pref: Vec<char> = Vec::new();
    let mut orig: Vec<char> = Vec::new();
    if groups.len() == 1 {
        let mut p0 = pad_octet_exec(&groups[0]);
        pref.append(&mut p0);
        let mut o0 = groups[0].clone();
        orig.append(&mut o0);
        assert(pref@ =~= normalized_prefix(mac@));
        assert(orig@ =~= original_prefix(mac@));
    } else if groups.len() == 2 {
        proof {
            assert(groups@[1].deep_view() =~= groups@[1]@);
            assert(groups@[1]@ == mac_groups(mac@)[1]);
        }
        let mut p0 = pad_octet_exec(&groups[0]);
        let mut p1 = pad_octet_exec(&groups[1]);
        pref.append(&mut p0);
        pref.append(&mut p1);
        let mut o0 = groups[0].clone();
        let mut o1 = groups[1].clone();
        orig.append(&mut o0);
        orig.push(':');
        orig.append(&mut o1);
        assert(pref@ =~= normalized_prefix(mac@));
        assert(orig@ =~= original_prefix(mac@));
    } else {
        proof {
            assert(groups@[1].deep_view() =~= groups@[1]@);
            assert(groups@[1]@ == mac_groups(mac@)[1]);
            assert(groups@[2].deep_view() =~= groups@[2]@);
            assert(groups@[2]@ == mac_groups(mac@)[2]);
        }
        let mut p0 = pad_octet_exec(&groups[0]);
        let mut p1 = pad_octet_exec(&groups[1]);
        let mut p2 = pad_octet_exec(&groups[2]);
        pref.append(&mut p0);
        pref.append(&mut p1);
        pref.append(&mut p2);
        let mut o0 = groups[0].clone();
        let mut o1 = groups[1].clone();
        let mut o2 = groups[2].clone();
        orig.append(&mut o0);
        orig.push(':');
        orig.append(&mut o1);
        orig.push(':');
        orig.append(&mut o2);
        assert(pref@ =~= normalized_prefix(mac@));
        assert(orig@ =~= original_prefix(mac@));
    }
    let key = chars_string(&pref);
    match table.lookup(&key) {
        Some(name) => name,
        None => {
            let mut label = str_chars("Unknown (");
            let mut oc = orig;
            label.append(&mut oc);
            label.push(')');
            proof {
                reveal_strlit(")");
                assert(label@ =~= "Unknown ("@ + original_prefix(mac@) + ")"@);
            }
            chars_string(&label)
        },
    }
}


/// The compiled-in baseline table: common networking-equipment and
/// virtualization vendors, keyed by six-character OUI prefix.
pub open spec fn fallback_entries() -> Seq<(Seq<char>, Seq<char>)> {
    seq![
        ("002722"@, "Ubiquiti Networks"@),
        ("FCECDA"@, "Ubiquiti Inc"@),
        ("B4FBE4"@, "Ubiquiti Inc"@),
        ("74ACB9"@, "Ubiquiti Networks"@),
        ("0418D6"@, "Ubiquiti Networks"@),
        ("DC9FDB"@, "Ubiquiti Inc"@),
        ("68D79A"@, "Ubiquiti Networks"@),
        ("802AA8"@, "Ubiquiti Inc"@),
        ("F09FC2"@, "Ubiquiti Networks"@),
        ("18E829"@, "Ubiquiti Networks"@),
        ("44D9E7"@, "Ubiquiti Networks"@),
        ("687251"@, "Ubiquiti Networks"@),
        ("24A43C"@, "Ubiquiti Networks"@),
        ("E063DA"@, "Ubiquiti Inc"@),
        ("78453C"@, "Ubiquiti Inc"@),
        ("788A20"@, "Ubiquiti Inc"@),
        ("D0217C"@, "Ubiquiti Inc"@),
        ("A42BB0"@, "Ubiquiti Inc"@),
        ("001B44"@, "D-Link"@),
        ("001EC2"@, "D-Link"@),
        ("002191"@, "D-Link"@),
        ("000C42"@, "Linksys"@),
        ("001310"@, "Linksys"@),
        ("0015E9"@, "Linksys"@),
        ("00145E"@, "TP-Link"@),
        ("0C80DA"@, "TP-Link"@),
        ("A07A0C"@, "TP-Link"@),
        ("002686"@, "Cisco"@),
        ("000D3A"@, "Cisco"@),
        ("001644"@, "Cisco Linksys"@),
        ("00055D"@, "NetGear"@),
        ("001B2F"@, "NetGear"@),
        ("0009B7"@, "NetGear"@),
        ("005056"@, "VMware"@),
        ("000C29"@, "VMware"@),
        ("080027"@, "Oracle VirtualBox"@),
        ("00155D"@, "Microsoft Hyper-V"@),
        ("001CB3"@, "Apple"@),
        ("00236C"@, "Apple"@),
        ("3C0754"@, "Apple"@),
        ("B827EB"@, "Raspberry Pi Foundation"@),
        ("DCA632"@, "Raspberry Pi Foundation"@),
        ("E45F01"@, "Raspberry Pi Trading"@),
        ("001EC0"@, "Intel Corporate"@),
        ("00215C"@, "Intel Corporate"@),
        ("0026C7"@, "Intel Corporate"@),
    ]
}

/// Load the baseline entries, appended behind whatever the table holds.
#[verifier::rlimit(60)]
pub fn load_fallback_database(table: &mut OuiTable)
    ensures
        final(table)@ == old(table)@ + fallback_entries(),
{
    table.push_entry("002722".to_owned(), "Ubiquiti Networks".to_owned());
    table.push_entry("FCECDA".to_owned(), "Ubiquiti Inc".to_owned());
    table.push_entry("B4FBE4".to_owned(), "Ubiquiti Inc".to_owned());
    table.push_entry("74ACB9".to_owned(), "Ubiquiti Networks".to_owned());
    table.push_entry("0418D6".to_owned(), "Ubiquiti Networks".to_owned());
    table.push_entry("DC9FDB".to_owned(), "Ubiquiti Inc".to_owned());
    table.push_entry("68D79A".to_owned(), "Ubiquiti Networks".to_owned());
    table.push_entry("802AA8".to_owned(), "Ubiquiti Inc".to_owned());
    table.push_entry("F09FC2".to_owned(), "Ubiquiti Networks".to_owned());
    table.push_entry("18E829".to_owned(), "Ubiquiti Networks".to_owned());
    table.push_entry("44D9E7".to_owned(), "Ubiquiti Networks".to_owned());
    table.push_entry("687251".to_owned(), "Ubiquiti Networks".to_owned());
    table.push_entry("24A43C".to_owned(), "Ubiquiti Networks".to_owned());
    table.push_entry("E063DA".to_owned(), "Ubiquiti Inc".to_owned());
    table.push_entry("78453C".to_owned(), "Ubiquiti Inc".to_owned());
    table.push_entry("788A20".to_owned(), "Ubiquiti Inc".to_owned());
    table.push_entry("D0217C".to_owned(), "Ubiquiti Inc".to_owned());
    table.push_entry("A42BB0".to_owned(), "Ubiquiti Inc".to_owned());
    table.push_entry("001B44".to_owned(), "D-Link".to_owned());
    table.push_entry("001EC2".to_owned(), "D-Link".to_owned());
    table.push_entry("002191".to_owned(), "D-Link".to_owned());
    table.push_entry("000C42".to_owned(), "Linksys".to_owned());
    table.push_entry("001310".to_owned(), "Linksys".to_owned());
    table.push_entry("0015E9".to_owned(), "Linksys".to_owned());
    table.push_entry("00145E".to_owned(), "TP-Link".to_owned());
    table.push_entry("0C80DA".to_owned(), "TP-Link".to_owned());
    table.push_entry("A07A0C".to_owned(), "TP-Link".to_owned());
    table.push_entry("002686".to_owned(), "Cisco".to_owned());
    table.push_entry("000D3A".to_owned(), "Cisco".to_owned());
    table.push_entry("001644".to_owned(), "Cisco Linksys".to_owned());
    table.push_entry("00055D".to_owned(), "NetGear".to_owned());
    table.push_entry("001B2F".to_owned(), "NetGear".to_owned());
    table.push_entry("0009B7".to_owned(), "NetGear".to_owned());
    table.push_entry("005056".to_owned(), "VMware".to_owned());
    table.push_entry("000C29".to_owned(), "VMware".to_owned());
    table.push_entry("080027".to_owned(), "Oracle VirtualBox".to_owned());
    table.push_entry("00155D".to_owned(), "Microsoft Hyper-V".to_owned());
    table.push_entry("001CB3".to_owned(), "Apple".to_owned());
    table.push_entry("00236C".to_owned(), "Apple".to_owned());
    table.push_entry("3C0754".to_owned(), "Apple".to_owned());
    table.push_entry("B827EB".to_owned(), "Raspberry Pi Foundation".to_owned());
    table.push_entry("DCA632".to_owned(), "Raspberry Pi Foundation".to_owned());
    table.push_entry("E45F01".to_owned(), "Raspberry Pi Trading".to_owned());
    table.push_entry("001EC0".to_owned(), "Intel Corporate".to_owned());
    table.push_entry("00215C".to_owned(), "Intel Corporate".to_owned());
    table.push_entry("0026C7".to_owned(), "Intel Corporate".to_owned());
    assert(table@ =~= old(table)@ + fallback_entries());
}

/// The line marker introducing a base-16 vendor entry.
pub open spec fn base16_marker() -> Seq<char> {
    "(base 16)"@
}

/// The line marker introducing a hex vendor entry.
pub open spec fn hex_marker() -> Seq<char> {
    "(hex)"@
}

/// The entry one override line with the given marker yields: the first
/// whitespace token with hyphens removed and upper-cased is the key, and the
/// trimmed text after the marker's first occurrence is the vendor name.
/// Lines with fewer than three tokens or an empty name yield nothing.
pub open spec fn marker_entry(line: Seq<char>, marker: Seq<char>) -> Option<(Seq<char>, Seq<char>)>
    recommends
        contains_sub(line, marker),
{
    if tokens(line).len() >= 3 {
        let p = choose|p: int| sub_first_at(line, marker, p);
        let company = trim_spec(line.subrange(p + marker.len(), line.len() as int));
        let key = upper_seq(remove_seq(tokens(line)[0], '-'));
        if company.len() > 0 {
            Some((key, company))
        } else {
            None
        }
    } else {
        None
    }
}

/// The entry an override line yields, recognizing the base-16 marker first.
pub open spec fn override_entry(line: Seq<char>) -> Option<(Seq<char>, Seq<char>)> {
    if contains_sub(line, base16_marker()) {
        marker_entry(line, base16_marker())
    } else if contains_sub(line, hex_marker()) {
        marker_entry(line, hex_marker())
    } else {
        None
    }
}

/// The table after one override line: a recognized entry goes in front,
/// shadowing any entry with the same key; a malformed line changes nothing.
pub open spec fn apply_line(t: Seq<(Seq<char>, Seq<char>)>, line: Seq<char>) -> Seq<
    (Seq<char>, Seq<char>),
> {
    match override_entry(line) {
        Some(e) => seq![e] + t,
        None => t,
    }
}

/// The table after a sequence of override lines, applied in order.
pub open spec fn table_after_lines(
    t: Seq<(Seq<char>, Seq<char>)>,
    lines: Seq<Seq<char>>,
) -> Seq<(Seq<char>, Seq<char>)>
    decreases lines.len(),
{
    if lines.len() == 0 {
        t
    } else {
        table_after_lines(apply_line(t, lines[0]), lines.drop_first())
    }
}

/// Apply one override line held as characters.
fn apply_line_chars(table: &mut OuiTable, lv: &Vec<char>) -> (changed: bool)
    ensures
        final(table)@ == apply_line(old(table)@, lv@),
{
    let m16 = str_chars("(base 16)");
    let mh = str_chars("(hex)");
    let p16 = find_sub(lv, &m16);
    let (p, ghost_marker) = match p16 {
        Some(p) => (p, Ghost(base16_marker())),
        None => {
            match find_sub(lv, &mh) {
                Some(p) => (p, Ghost(hex_marker())),
                None => {
                    assert(override_entry(lv@) is None);
                    return false;
                },
            }
        },
    };
    let ghost marker = ghost_marker@;
    let marker_len = if p16.is_some() {
        9
    } else {
        5
    };
    proof {
        assert(marker.len() == marker_len) by {
            reveal_strlit("(base 16)");
            reveal_strlit("(hex)");
        }
        assert(sub_first_at(lv@, marker, p as int));
        assert(marker_entry(lv@, marker) == override_entry(lv@));
    }
    let toks = tokens_chars(lv);
    proof {
        assert(toks.deep_view().len() == toks@.len());
    }
    if toks.len() < 3 {
        assert(override_entry(lv@) is None);
        return false;
    }
    let lvn = lv.len();
    assert(p + marker_len <= lvn);
    let start = p + marker_len;
    let tail = copy_range(lv, start, lvn);
    let company = trim_chars(&tail);
    proof {
        let pc = choose|pc: int| sub_first_at(lv@, marker, pc);
        assert(sub_first_at(lv@, marker, pc));
        lemma_sub_first_at_unique(lv@, marker, pc, p as int);
        assert(company@ == trim_spec(lv@.subrange(p + marker.len(), lv@.len() as int)));
    }
    if company.len() == 0 {
        assert(override_entry(lv@) is None);
        return false;
    }
    proof {
        assert(toks@[0].deep_view() =~= toks@[0]@);
        assert(toks@[0]@ == tokens(lv@)[0]);
    }
    let stripped = remove_chars(&toks[0], '-');
    let key = upper_chars(&stripped);
    assert(key@ == upper_seq(remove_seq(tokens(lv@)[0], '-')));
    table.insert(chars_string(&key), chars_string(&company));
    true
}

/// Apply an override line: a recognized vendor entry replaces any table
/// entry with the same prefix; malformed lines are ignored.
pub fn apply_override_line(table: &mut OuiTable, line: &str) -> (changed: bool)
    ensures
        final(table)@ == apply_line(old(table)@, line@),
{
    let lv = str_chars(line);
    apply_line_chars(table, &lv)
}

/// Apply a whole override text, line by line, in order.
pub fn apply_override_text(table: &mut OuiTable, contents: &str)
    ensures
        final(table)@ == table_after_lines(old(table)@, split_on(contents@, '\n')),
{
    let cv = str_chars(contents);
    let lines = split_chars(&cv, '\n');
    proof {
        assert(lines.deep_view().len() == lines@.len());
    }
    let ghost all = split_on(contents@, '\n');
    let n = lines.len();
    let mut i: usize = 0;
    assert(all.subrange(0, n as int) =~= all);
    while i < n
        invariant
            n == lines@.len(),
            n == all.len(),
            i <= n,
            lines.deep_view() == all,
            table_after_lines(old(table)@, all) == table_after_lines(
                table@,
                all.subrange(i as int, n as int),
            ),
        decreases n - i,
    {
        let ghost rem = all.subrange(i as int, n as int);
        proof {
            assert(lines@[i as int].deep_view() =~= lines@[i as int]@);
            assert(lines@[i as int]@ == all[i as int]);
            assert(rem.drop_first() =~= all.subrange(i + 1 as int, n as int));
        }
        apply_line_chars(table, &lines[i]);
        i += 1;
    }
    assert(all.subrange(n as int, n as int) =~= Seq::<Seq<char>>::empty());
}

/// Upper-casing one character twice is the same as doing it once.
proof fn lemma_upper_idempotent(g: Seq<char>)
    ensures
        upper_seq(upper_seq(g)) == upper_seq(g),
{
    assert forall|i: int| 0 <= i < upper_seq(upper_seq(g)).len() implies upper_seq(
        upper_seq(g),
    )[i] == upper_seq(g)[i] by {
        let c = g[i];
        assert(upper_seq(g)[i] == ascii_upper(c));
        if 'a' <= c && c <= 'z' {
            assert('A' <= ascii_upper(c) && ascii_upper(c) <= 'Z');
        }
    }
    assert(upper_seq(upper_seq(g)) =~= upper_seq(g));
}

/// Padding sees through case: the padded octet of an upper-cased group is
/// the padded octet of the group.
proof fn lemma_pad_upper(g: Seq<char>)
    ensures
        pad_octet(upper_seq(g)) == pad_octet(g),
{
    lemma_upper_idempotent(g);
}

/// Upper-casing commutes with splitting a hardware address into groups.
proof fn lemma_split_upper(s: Seq<char>, cur: Seq<char>)
    ensures
        split_aux(upper_seq(s), ':', upper_seq(cur)) == split_aux(s, ':', cur).map_values(
            |g: Seq<char>| upper_seq(g),
        ),
    decreases s.len(),
{
    let us = upper_seq(s);
    if s.len() == 0 {
        assert(seq![upper_seq(cur)] =~~= seq![cur].map_values(|g: Seq<char>| upper_seq(g)));
    } else {
        assert(us[0] == ascii_upper(s[0]));
        assert(upper_seq(s.drop_first()) =~= us.drop_first());
        if s[0] == ':' {
            assert(us[0] == ':');
            lemma_split_upper(s.drop_first(), Seq::<char>::empty());
            assert(upper_seq(Seq::<char>::empty()) =~= Seq::<char>::empty());
            assert(seq![upper_seq(cur)] + split_aux(
                upper_seq(s.drop_first()),
                ':',
                Seq::<char>::empty(),
            ) =~~= (seq![cur] + split_aux(s.drop_first(), ':', Seq::<char>::empty())).map_values(
                |g: Seq<char>| upper_seq(g),
            ));
        } else {
            let c = s[0];
            if 'a' <= c && c <= 'z' {
                assert('A' <= ascii_upper(c) && ascii_upper(c) <= 'Z');
            }
            assert(us[0] != ':');
            lemma_split_upper(s.drop_first(), cur.push(c));
            assert(upper_seq(cur.push(c)) =~= upper_seq(cur).push(ascii_upper(c)));
        }
    }
}

/// Prefix normalization is case-insensitive: upper-casing a hardware address
/// first does not change its lookup prefix.
pub proof fn lemma_normalized_prefix_case_insensitive(mac: Seq<char>)
    ensures
        normalized_prefix(upper_seq(mac)) == normalized_prefix(mac),
{
    lemma_split_upper(mac, Seq::<char>::empty());
    assert(upper_seq(Seq::<char>::empty()) =~= Seq::<char>::empty());
    lemma_split_aux_len(mac, ':', Seq::<char>::empty());
    let gs = mac_groups(mac);
    let ugs = mac_groups(upper_seq(mac));
    assert(ugs == gs.map_values(|g: Seq<char>| upper_seq(g)));
    assert(ugs.len() == gs.len());
    if gs.len() >= 1 {
        assert(ugs[0] == upper_seq(gs[0]));
        lemma_pad_upper(gs[0]);
    }
    if gs.len() >= 2 {
        assert(ugs[1] == upper_seq(gs[1]));
        lemma_pad_upper(gs[1]);
    }
    if gs.len() >= 3 {
        assert(ugs[2] == upper_seq(gs[2]));
        lemma_pad_upper(gs[2]);
    }
}

/// Two hardware addresses that agree up to letter case share one lookup
/// prefix.
pub proof fn lemma_resolve_case_insensitive(m1: Seq<char>, m2: Seq<char>)
    requires
        upper_seq(m1) == upper_seq(m2),
    ensures
        normalized_prefix(m1) == normalized_prefix(m2),
{
    lemma_normalized_prefix_case_insensitive(m1);
    lemma_normalized_prefix_case_insensitive(m2);
}


/// The sentinel resolves to itself, whatever the table holds.
pub proof fn lemma_sentinel_resolves_to_itself(t: Seq<(Seq<char>, Seq<char>)>)
    ensures
        resolved_vendor(t, "Unknown"@) == "Unknown"@,
{
}

} // verus!
