//! Adoption Session Controller: the state machine one remote provisioning
//! session steps through. The controller decides every transition and every
//! transcript append; the caller performs the blocking transport work and
//! feeds results and captured output back in as events.
//!
//! Failure at any step carries the transcript captured so far, appended with
//! the failure message, so partial diagnostic output is never lost.

use vstd::prelude::*;
use crate::ansi::strip_ansi;
use crate::strutil::{chars_string, split_chars, split_on, str_chars, trim_chars, trim_spec};

verus! {

/// Where a session stands.
#[derive(Clone, Copy, Debug, PartialEq, Eq, Structural)]
pub enum SessionPhase {
    Connecting,
    Authenticating,
    ShellStarting,
    AwaitingPrompt,
    CommandSent,
    Draining,
    Done,
    Failed,
}

/// Why a session failed.
#[derive(Clone, Copy, Debug, PartialEq, Eq, Structural)]
pub enum AdoptErrorKind {
    /// The transport could not be opened or configured.
    Connection,
    /// The protocol handshake or the credentials were rejected.
    Authentication,
    /// The channel failed unexpectedly mid-session.
    Protocol,
}

/// One adoption session: its phase, the transcript accumulated so far, and
/// the error that ended it, if one did.
pub struct AdoptionSession {
    pub phase: SessionPhase,
    pub transcript: String,
    pub error: Option<AdoptErrorKind>,
}

/// A line whose trimmed form ends with the prompt marker.
pub open spec fn is_prompt_line(l: Seq<char>) -> bool {
    trim_spec(l).len() > 0 && trim_spec(l).last() == '#'
}

/// The trimmed form of the last prompt line among the given lines, if any.
pub open spec fn last_prompt(lines: Seq<Seq<char>>) -> Option<Seq<char>>
    decreases lines.len(),
{
    if lines.len() == 0 {
        None
    } else if is_prompt_line(lines.last()) {
        Some(trim_spec(lines.last()))
    } else {
        last_prompt(lines.drop_last())
    }
}

/// What the welcome banner contributes to the transcript: the last prompt
/// line of the cleaned capture plus a newline, or nothing when no line ends
/// with the prompt marker.
pub open spec fn prompt_chunk(raw: Seq<char>) -> Option<Seq<char>> {
    match last_prompt(split_on(strip_ansi(raw), '\n')) {
        Some(p) => Some(p + "\n"@),
        None => None,
    }
}

/// Find the last line of `cleaned` whose trimmed form ends with the prompt
/// marker.
fn find_last_prompt(cleaned: &Vec<char>) -> (r: Option<Vec<char>>)
    ensures
        match r {
            Some(p) => last_prompt(split_on(cleaned@, '\n')) == Some(p@),
            None => last_prompt(split_on(cleaned@, '\n')) is None,
        },
{
    let lines = split_chars(cleaned, '\n');
    proof {
        assert(lines.deep_view().len() == lines@.len());
    }
    let ghost all = split_on(cleaned@, '\n');
    let n = lines.len();
    let mut i: usize = n;
    assert(all.subrange(0, n as int) =~= all);
    while i > 0
        invariant
            all == split_on(cleaned@, '\n'),
            n == lines@.len(),
            n == all.len(),
            i <= n,
            lines.deep_view() == all,
            last_prompt(all) == last_prompt(all.subrange(0, i as int)),
        decreases i,
    {
        let ghost pre = all.subrange(0, i as int);
        proof {
            assert(lines@[i - 1].deep_view() =~= lines@[i - 1]@);
            assert(lines@[i - 1]@ == all[i - 1]);
            assert(pre.last() == all[i - 1]);
            assert(pre.drop_last() =~= all.subrange(0, i - 1));
        }
        let t = trim_chars(&lines[i - 1]);
        if t.len() > 0 && t[t.len() - 1] == '#' {
            proof {
                assert(t@ == trim_spec(all[i - 1]));
                assert(is_prompt_line(all[i - 1]));
                assert(is_prompt_line(pre.last()));
                assert(last_prompt(pre) == Some(trim_spec(pre.last())));
                assert(last_prompt(all) == Some(t@));
                assert(last_prompt(split_on(cleaned@, '\n')) == Some(t@));
            }
            return Some(t);
        }
        assert(!is_prompt_line(all[i - 1]));
        i -= 1;
    }
    assert(all.subrange(0, 0) =~= Seq::<Seq<char>>::empty());
    None
}

/// The one provisioning command a session issues, newline-terminated, with
/// the controller identifier interpolated.
pub fn inform_command(controller_url: &str) -> (r: String)
    ensures
        r@ == "set-inform "@ + controller_url@ + "/inform\n"@,
{
    let mut r = "set-inform ".to_owned();
    r.append(controller_url);
    r.append("/inform\n");
    r
}

impl AdoptionSession {
    /// Open a session record: the transcript starts with the attempted
    /// connection banner, which the caller also shows.
    pub fn begin(username: &str, ip: &str) -> (r: AdoptionSession)
        ensures
            r.phase == SessionPhase::Connecting,
            r.error is None,
            r.transcript@ == username@ + "@"@ + ip@ + "\n"@,
    {
        let mut t = username.to_owned();
        t.append("@");
        t.append(ip);
        t.append("\n");
        AdoptionSession { phase: SessionPhase::Connecting, transcript: t, error: None }
    }

    /// Record a failure: the message joins the transcript after a newline,
    /// so the partial output is returned alongside the error.
    fn fail(&mut self, kind: AdoptErrorKind, prefix: &str, detail: &str)
        ensures
            final(self).phase == SessionPhase::Failed,
            final(self).error == Some(kind),
            final(self).transcript@ == old(self).transcript@ + "\n"@ + prefix@ + detail@,
    {
        self.transcript.append("\n");
        self.transcript.append(prefix);
        self.transcript.append(detail);
        self.phase = SessionPhase::Failed;
        self.error = Some(kind);
    }

    /// The transport could not be opened.
    pub fn connect_failed(&mut self, detail: &str)
        requires
            old(self).phase == SessionPhase::Connecting,
        ensures
            final(self).phase == SessionPhase::Failed,
            final(self).error == Some(AdoptErrorKind::Connection),
            final(self).transcript@ == old(self).transcript@ + "\n"@ + "Connection failed: "@
                + detail@,
    {
        self.fail(AdoptErrorKind::Connection, "Connection failed: ", detail);
    }

    /// The transport's read deadline could not be configured.
    pub fn socket_setup_failed(&mut self, detail: &str)
        requires
            old(self).phase == SessionPhase::Connecting,
        ensures
            final(self).phase == SessionPhase::Failed,
            final(self).error == Some(AdoptErrorKind::Connection),
            final(self).transcript@ == old(self).transcript@ + "\n"@ + "Failed to set timeout: "@
                + detail@,
    {
        self.fail(AdoptErrorKind::Connection, "Failed to set timeout: ", detail);
    }

    /// The protocol session object could not be created.
    pub fn session_init_failed(&mut self, detail: &str)
        requires
            old(self).phase == SessionPhase::Connecting,
        ensures
            final(self).phase == SessionPhase::Failed,
            final(self).error == Some(AdoptErrorKind::Connection),
            final(self).transcript@ == old(self).transcript@ + "\n"@
                + "Failed to create session: "@ + detail@,
    {
        self.fail(AdoptErrorKind::Connection, "Failed to create session: ", detail);
    }

    /// The transport is open: authentication comes next.
    pub fn connected(&mut self)
        requires
            old(self).phase == SessionPhase::Connecting,
        ensures
            final(self).phase == SessionPhase::Authenticating,
            final(self).error == old(self).error,
            final(self).transcript == old(self).transcript,
    {
        self.phase = SessionPhase::Authenticating;
    }

    /// The protocol handshake was rejected.
    pub fn handshake_failed(&mut self, detail: &str)
        requires
            old(self).phase == SessionPhase::Authenticating,
        ensures
            final(self).phase == SessionPhase::Failed,
            final(self).error == Some(AdoptErrorKind::Authentication),
            final(self).transcript@ == old(self).transcript@ + "\n"@ + "SSH handshake failed: "@
                + detail@,
    {
        self.fail(AdoptErrorKind::Authentication, "SSH handshake failed: ", detail);
    }

    /// The credentials were rejected with a reported reason.
    pub fn auth_failed(&mut self, detail: &str)
        requires
            old(self).phase == SessionPhase::Authenticating,
        ensures
            final(self).phase == SessionPhase::Failed,
            final(self).error == Some(AdoptErrorKind::Authentication),
            final(self).transcript@ == old(self).transcript@ + "\n"@ + "Authentication failed: "@
                + detail@,
    {
        self.fail(AdoptErrorKind::Authentication, "Authentication failed: ", detail);
    }

    /// Authentication silently did not take effect.
    pub fn auth_rejected(&mut self)
        requires
            old(self).phase == SessionPhase::Authenticating,
        ensures
            final(self).phase == SessionPhase::Failed,
            final(self).error == Some(AdoptErrorKind::Authentication),
            final(self).transcript@ == old(self).transcript@ + "\n"@
                + "Authentication failed: Invalid credentials"@,
    {
        self.fail(AdoptErrorKind::Authentication, "Authentication failed: Invalid credentials", "");
        proof {
            assert(final(self).transcript@ =~= old(self).transcript@ + "\n"@
                + "Authentication failed: Invalid credentials"@ + ""@);
            reveal_strlit("");
            assert(final(self).transcript@ =~= old(self).transcript@ + "\n"@
                + "Authentication failed: Invalid credentials"@);
        }
    }

    /// Credentials accepted: the interactive shell comes next.
    pub fn authenticated(&mut self)
        requires
            old(self).phase == SessionPhase::Authenticating,
        ensures
            final(self).phase == SessionPhase::ShellStarting,
            final(self).error == old(self).error,
            final(self).transcript == old(self).transcript,
    {
        self.phase = SessionPhase::ShellStarting;
    }

    /// No session channel could be opened.
    pub fn channel_failed(&mut self, detail: &str)
        requires
            old(self).phase == SessionPhase::ShellStarting,
        ensures
            final(self).phase == SessionPhase::Failed,
            final(self).error == Some(AdoptErrorKind::Protocol),
            final(self).transcript@ == old(self).transcript@ + "\n"@ + "Failed to open channel: "@
                + detail@,
    {
        self.fail(AdoptErrorKind::Protocol, "Failed to open channel: ", detail);
    }

    /// The pseudo-terminal request was rejected.
    pub fn pty_failed(&mut self, detail: &str)
        requires
            old(self).phase == SessionPhase::ShellStarting,
        ensures
            final(self).phase == SessionPhase::Failed,
            final(self).error == Some(AdoptErrorKind::Protocol),
            final(self).transcript@ == old(self).transcript@ + "\n"@ + "Failed to request PTY: "@
                + detail@,
    {
        self.fail(AdoptErrorKind::Protocol, "Failed to request PTY: ", detail);
    }

    /// The shell request was rejected.
    pub fn shell_failed(&mut self, detail: &str)
        requires
            old(self).phase == SessionPhase::ShellStarting,
        ensures
            final(self).phase == SessionPhase::Failed,
            final(self).error == Some(AdoptErrorKind::Protocol),
            final(self).transcript@ == old(self).transcript@ + "\n"@ + "Failed to start shell: "@
                + detail@,
    {
        self.fail(AdoptErrorKind::Protocol, "Failed to start shell: ", detail);
    }

    /// The interactive shell is up: the welcome banner comes next.
    pub fn shell_started(&mut self)
        requires
            old(self).phase == SessionPhase::ShellStarting,
        ensures
            final(self).phase == SessionPhase::AwaitingPrompt,
            final(self).error == old(self).error,
            final(self).transcript == old(self).transcript,
    {
        self.phase = SessionPhase::AwaitingPrompt;
    }

    /// Digest the captured welcome banner: only the last line ending with
    /// the prompt marker is kept (trimmed, plus newline); finding none is
    /// not an error and contributes nothing. The returned chunk is what a
    /// progress sink should be offered.
    pub fn prompt_read(&mut self, raw: &str) -> (chunk: Option<String>)
        requires
            old(self).phase == SessionPhase::AwaitingPrompt,
        ensures
            final(self).phase == SessionPhase::AwaitingPrompt,
            final(self).error == old(self).error,
            match chunk {
                Some(c) => prompt_chunk(raw@) == Some(c@) && final(self).transcript@ == old(
                    self,
                ).transcript@ + c@,
                None => prompt_chunk(raw@) is None && final(self).transcript == old(
                    self,
                ).transcript,
            },
    {
        let cleaned_s = crate::ansi::strip_ansi_codes(raw);
        let cleaned = str_chars(cleaned_s.as_str());
        match find_last_prompt(&cleaned) {
            Some(p) => {
                let mut line = chars_string(&p);
                line.append("\n");
                self.transcript.append(line.as_str());
                Some(line)
            },
            None => None,
        }
    }

    /// The command line could not be written to the channel.
    pub fn command_send_failed(&mut self, detail: &str)
        requires
            old(self).phase == SessionPhase::AwaitingPrompt,
        ensures
            final(self).phase == SessionPhase::Failed,
            final(self).error == Some(AdoptErrorKind::Protocol),
            final(self).transcript@ == old(self).transcript@ + "\n"@ + "Failed to send command: "@
                + detail@,
    {
        self.fail(AdoptErrorKind::Protocol, "Failed to send command: ", detail);
    }

    /// Exactly one provisioning command line went out: draining comes next.
    pub fn command_sent(&mut self)
        requires
            old(self).phase == SessionPhase::AwaitingPrompt,
        ensures
            final(self).phase == SessionPhase::Draining,
            final(self).error == old(self).error,
            final(self).transcript == old(self).transcript,
    {
        self.phase = SessionPhase::Draining;
    }

    /// Digest one non-empty read captured while draining: the cleaned text
    /// joins the transcript and is returned for the progress sink and the
    /// diagnostic stream.
    pub fn drain_chunk(&mut self, raw: &str) -> (chunk: String)
        requires
            old(self).phase == SessionPhase::Draining,
        ensures
            final(self).phase == SessionPhase::Draining,
            final(self).error == old(self).error,
            chunk@ == strip_ansi(raw@),
            final(self).transcript@ == old(self).transcript@ + strip_ansi(raw@),
    {
        let cleaned = crate::ansi::strip_ansi_codes(raw);
        self.transcript.append(cleaned.as_str());
        cleaned
    }

    /// The drain ended, by end-of-stream or by reaching the ceiling: either
    /// way the session succeeded with whatever it captured.
    pub fn finish(&mut self)
        requires
            old(self).phase == SessionPhase::Draining,
        ensures
            final(self).phase == SessionPhase::Done,
            final(self).error == old(self).error,
            final(self).transcript == old(self).transcript,
    {
        self.phase = SessionPhase::Done;
    }
}

} // verus!
