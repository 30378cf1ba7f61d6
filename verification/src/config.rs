//! Application configuration: the credential pairs and controller
//! identifier, parsed from and rendered to a line-oriented key=value text.

use vstd::prelude::*;
use crate::strutil::{
    char_first_at, chars_eq, chars_string, contains_char, copy_range, find_char_at,
    lemma_char_first_at_unique, split_chars, split_on, str_chars, trim_chars, trim_spec,
};

verus! {

/// The settings one adoption run works with.
#[derive(Debug)]
pub struct AppConfig {
    pub controller_url: String,
    pub ssh_username: String,
    pub ssh_password: String,
    pub alt_ssh_username: String,
    pub alt_ssh_password: String,
}

impl Default for AppConfig {
    /// The out-of-the-box settings.
    fn default() -> (r: AppConfig)
        ensures
            r.controller_url@ == "http://192.168.1.1:8080"@,
            r.ssh_username@ == "ubnt"@,
            r.ssh_password@ == "ubnt"@,
            r.alt_ssh_username@ == ""@,
            r.alt_ssh_password@ == ""@,
    {
        AppConfig {
            controller_url: "http://192.168.1.1:8080".to_owned(),
            ssh_username: "ubnt".to_owned(),
            ssh_password: "ubnt".to_owned(),
            alt_ssh_username: "".to_owned(),
            alt_ssh_password: "".to_owned(),
        }
    }
}

/// What one line does to one field: a line `key = value` (split at the
/// first equals sign, both sides trimmed) replaces the field named `key`;
/// any other line leaves it alone.
pub open spec fn line_update(line: Seq<char>, key: Seq<char>, cur: Seq<char>) -> Seq<char> {
    if contains_char(line, '=') {
        let p = choose|p: int| char_first_at(line, '=', p);
        if trim_spec(line.subrange(0, p)) == key {
            trim_spec(line.subrange(p + 1, line.len() as int))
        } else {
            cur
        }
    } else {
        cur
    }
}

/// One field's value after all lines are applied in order, starting from
/// its default.
pub open spec fn field_after(lines: Seq<Seq<char>>, key: Seq<char>, cur: Seq<char>) -> Seq<char>
    decreases lines.len(),
{
    if lines.len() == 0 {
        cur
    } else {
        field_after(lines.drop_first(), key, line_update(lines[0], key, cur))
    }
}

/// Parse a configuration text: each recognized `key=value` line replaces
/// that field, later lines win, and unrecognized lines are ignored.
pub fn parse_config(contents: &str) -> (r: AppConfig)
    ensures
        r.controller_url@ == field_after(
            split_on(contents@, '\n'),
            "controller_url"@,
            "http://192.168.1.1:8080"@,
        ),
        r.ssh_username@ == field_after(split_on(contents@, '\n'), "ssh_username"@, "ubnt"@),
        r.ssh_password@ == field_after(split_on(contents@, '\n'), "ssh_password"@, "ubnt"@),
        r.alt_ssh_username@ == field_after(split_on(contents@, '\n'), "alt_ssh_username"@, ""@),
        r.alt_ssh_password@ == field_after(split_on(contents@, '\n'), "alt_ssh_password"@, ""@),
{
    let mut cu = str_chars("http://192.168.1.1:8080");
    let mut un = str_chars("ubnt");
    let mut pw = str_chars("ubnt");
    let mut aun = str_chars("");
    let mut apw = str_chars("");
    let k_cu = str_chars("controller_url");
    let k_un = str_chars("ssh_username");
    let k_pw = str_chars("ssh_password");
    let k_aun = str_chars("alt_ssh_username");
    let k_apw = str_chars("alt_ssh_password");
    let cv = str_chars(contents);
    let lines = split_chars(&cv, '\n');
    proof {
        assert(lines.deep_view().len() == lines@.len());
    }
    let ghost all = split_on(contents@, '\n');
    let n = lines.len();
    let mut i: usize = 0;
    assert(all.subrange(0, n as int) =~= all);
    while i < n
        invariant
            all == split_on(contents@, '\n'),
            n == lines@.len(),
            n == all.len(),
            i <= n,
            lines.deep_view() == all,
            k_cu@ == "controller_url"@,
            k_un@ == "ssh_username"@,
            k_pw@ == "ssh_password"@,
            k_aun@ == "alt_ssh_username"@,
            k_apw@ == "alt_ssh_password"@,
            field_after(all, "controller_url"@, "http://192.168.1.1:8080"@) == field_after(
                all.subrange(i as int, n as int),
                "controller_url"@,
                cu@,
            ),
            field_after(all, "ssh_username"@, "ubnt"@) == field_after(
                all.subrange(i as int, n as int),
                "ssh_username"@,
                un@,
            ),
            field_after(all, "ssh_password"@, "ubnt"@) == field_after(
                all.subrange(i as int, n as int),
                "ssh_password"@,
                pw@,
            ),
            field_after(all, "alt_ssh_username"@, ""@) == field_after(
                all.subrange(i as int, n as int),
                "alt_ssh_username"@,
                aun@,
            ),
            field_after(all, "alt_ssh_password"@, ""@) == field_after(
                all.subrange(i as int, n as int),
                "alt_ssh_password"@,
                apw@,
            ),
        decreases n - i,
    {
        let ghost rem = all.subrange(i as int, n as int);
        proof {
            assert(lines@[i as int].deep_view() =~= lines@[i as int]@);
            assert(lines@[i as int]@ == all[i as int]);
            assert(rem[0] == all[i as int]);
            assert(rem.drop_first() =~= all.subrange(i + 1 as int, n as int));
        }
        let ghost line = all[i as int];
        match find_char_at(&lines[i], '=') {
            Some(p) => {
                let llen = lines[i].len();
                assert(p < llen);
                let left = copy_range(&lines[i], 0, p);
                let right = copy_range(&lines[i], p + 1, llen);
                let kpart = trim_chars(&left);
                let vpart = trim_chars(&right);
                proof {
                    let pc = choose|pc: int| char_first_at(line, '=', pc);
                    assert(char_first_at(line, '=', p as int));
                    assert(contains_char(line, '='));
                    lemma_char_first_at_unique(line, '=', pc, p as int);
                    assert(left@ == line.subrange(0, p as int));
                    assert(right@ == line.subrange(p + 1, line.len() as int));
                    assert(kpart@ == trim_spec(line.subrange(0, p as int)));
                    assert(vpart@ == trim_spec(line.subrange(p + 1, line.len() as int)));
                    reveal_strlit("controller_url");
                    reveal_strlit("ssh_username");
                    reveal_strlit("ssh_password");
                    reveal_strlit("alt_ssh_username");
                    reveal_strlit("alt_ssh_password");
                    assert("controller_url"@.len() == 14);
                    assert("ssh_username"@.len() == 12);
                    assert("ssh_password"@.len() == 12);
                    assert("alt_ssh_username"@.len() == 16);
                    assert("alt_ssh_password"@.len() == 16);
                    assert("ssh_username"@[4] != "ssh_password"@[4]);
                    assert("alt_ssh_username"@[8] != "alt_ssh_password"@[8]);
                    assert(line_update(line, "controller_url"@, cu@) == (if kpart@
                        == "controller_url"@ {
                        vpart@
                    } else {
                        cu@
                    }));
                    assert(line_update(line, "ssh_username"@, un@) == (if kpart@
                        == "ssh_username"@ {
                        vpart@
                    } else {
                        un@
                    }));
                    assert(line_update(line, "ssh_password"@, pw@) == (if kpart@
                        == "ssh_password"@ {
                        vpart@
                    } else {
                        pw@
                    }));
                    assert(line_update(line, "alt_ssh_username"@, aun@) == (if kpart@
                        == "alt_ssh_username"@ {
                        vpart@
                    } else {
                        aun@
                    }));
                    assert(line_update(line, "alt_ssh_password"@, apw@) == (if kpart@
                        == "alt_ssh_password"@ {
                        vpart@
                    } else {
                        apw@
                    }));
                }
                let ghost ocu = cu@;
                let ghost oun = un@;
                let ghost opw = pw@;
                let ghost oaun = aun@;
                let ghost oapw = apw@;
                if chars_eq(&kpart, &k_cu) {
                    cu = vpart;
                } else if chars_eq(&kpart, &k_un) {
                    un = vpart;
                } else if chars_eq(&kpart, &k_pw) {
                    pw = vpart;
                } else if chars_eq(&kpart, &k_aun) {
                    aun = vpart;
                } else if chars_eq(&kpart, &k_apw) {
                    apw = vpart;
                }
                proof {
                    assert(cu@ == line_update(line, "controller_url"@, ocu));
                    assert(un@ == line_update(line, "ssh_username"@, oun));
                    assert(pw@ == line_update(line, "ssh_password"@, opw));
                    assert(aun@ == line_update(line, "alt_ssh_username"@, oaun));
                    assert(apw@ == line_update(line, "alt_ssh_password"@, oapw));
                    assert(field_after(rem, "ssh_username"@, oun) == field_after(
                        rem.drop_first(),
                        "ssh_username"@,
                        line_update(line, "ssh_username"@, oun),
                    ));
                    assert(field_after(rem, "ssh_password"@, opw) == field_after(
                        rem.drop_first(),
                        "ssh_password"@,
                        line_update(line, "ssh_password"@, opw),
                    ));
                    assert(field_after(rem, "alt_ssh_username"@, oaun) == field_after(
                        rem.drop_first(),
                        "alt_ssh_username"@,
                        line_update(line, "alt_ssh_username"@, oaun),
                    ));
                    assert(field_after(rem, "alt_ssh_password"@, oapw) == field_after(
                        rem.drop_first(),
                        "alt_ssh_password"@,
                        line_update(line, "alt_ssh_password"@, oapw),
                    ));
                }
            },
            None => {
                assert(!contains_char(line, '='));
            },
        }
        i += 1;
    }
    assert(all.subrange(n as int, n as int) =~= Seq::<Seq<char>>::empty());
    AppConfig {
        controller_url: chars_string(&cu),
        ssh_username: chars_string(&un),
        ssh_password: chars_string(&pw),
        alt_ssh_username: chars_string(&aun),
        alt_ssh_password: chars_string(&apw),
    }
}

/// Render the configuration to its line-oriented text form.
pub fn render_config(config: &AppConfig) -> (r: String)
    ensures
        r@ == "controller_url="@ + config.controller_url@ + "\n"@ + "ssh_username="@
            + config.ssh_username@ + "\n"@ + "ssh_password="@ + config.ssh_password@ + "\n"@
            + "alt_ssh_username="@ + config.alt_ssh_username@ + "\n"@ + "alt_ssh_password="@
            + config.alt_ssh_password@ + "\n"@,
{
    let mut r = "controller_url=".to_owned();
    r.append(config.controller_url.as_str());
    r.append("\n");
    r.append("ssh_username=");
    r.append(config.ssh_username.as_str());
    r.append("\n");
    r.append("ssh_password=");
    r.append(config.ssh_password.as_str());
    r.append("\n");
    r.append("alt_ssh_username=");
    r.append(config.alt_ssh_username.as_str());
    r.append("\n");
    r.append("alt_ssh_password=");
    r.append(config.alt_ssh_password.as_str());
    r.append("\n");
    r
}

} // verus!
