//! The command engine: parses one CRLF-terminated line into tag, verb
//! and argument string, dispatches it against the session and a fresh
//! mailbox snapshot, and yields the response lines to write, together
//! with what is to become of the connection.
//!
//! The caller owns the socket: it reads one line, takes a fresh
//! snapshot, calls [`handle_command`], writes the returned lines, and
//! closes the connection when told to.
use vstd::prelude::*;

use crate::error::Error;
use crate::error::IMAPResult;
use crate::error::error_text;
use crate::session::EntryV;
use crate::session::MailEntry;
use crate::session::SessionV;
use crate::session::UserSession;
use crate::session::fetch_seq_spec;
use crate::session::fetch_uid_spec;
use crate::session::list_arg;
use crate::session::list_spec;
use crate::session::login_cleaned;
use crate::session::login_user;
use crate::session::local_part;
use crate::session::search_spec;
use crate::session::snapshot_wf;
use crate::strutil::dec_of;
use crate::strutil::rfind;
use crate::strutil::u64_to_string;
use crate::strutil::find_from;
use crate::strutil::find_char_from;
use crate::strutil::last_token;
use crate::strutil::lemma_find_from_bounds;
use crate::strutil::str_eq;
use crate::strutil::strip_chars;
use crate::strutil::strip_spec;
use crate::strutil::to_upper;
use crate::types::Command;
use crate::types::Response;
use crate::types::command_of;
use crate::types::response_text;

verus! {

/// A response line: the tag (`*` when there is none), the status word
/// if any, and the message, each separated by one blank.
pub open spec fn line_of(tag: Option<Seq<char>>, resp: Response, msg: Seq<char>) -> Seq<char> {
    let tg = match tag {
        None => "*"@,
        Some(t) => t,
    };
    if resp is Untagged {
        tg + " "@ + msg
    } else {
        tg + " "@ + response_text(resp) + " "@ + msg
    }
}

pub open spec fn tag_seq_of(tag: Option<&str>) -> Option<Seq<char>> {
    match tag {
        None => None,
        Some(t) => Some(t@),
    }
}

/// Render one response line.
pub fn render_line(tag: Option<&str>, resp: Response, msg: &str) -> (r: String)
    ensures
        r@ == line_of(tag_seq_of(tag), resp, msg@),
{
    let mut out: String = match tag {
        None => "*".to_owned(),
        Some(t) => t.to_owned(),
    };
    out.append(" ");
    match resp {
        Response::Untagged => {
            out.append(msg);
        },
        _ => {
            out.append(resp.text());
            out.append(" ");
            out.append(msg);
        },
    }
    proof {
        assert(out@ =~= line_of(tag_seq_of(tag), resp, msg@));
    }
    out
}

/// The server greeting written when a connection opens.
pub fn greeting() -> (r: String)
    ensures
        r@ == line_of(None, Response::Okay, "IMAP4 Service Ready.\r\n"@),
{
    let r = render_line(None, Response::Okay, "IMAP4 Service Ready.\r\n");
    r
}

/// One input line split into verb, tag and argument string: the tag
/// is the first blank-separated token, the verb the second, and the
/// rest stays one string.  Carriage returns and line feeds are
/// dropped first.  A line without a verb is refused.
pub open spec fn parse_response_spec(line: Seq<char>) -> Result<
    (Command, Seq<char>, Seq<char>),
    Error,
> {
    let s = strip_spec(line, "\r\n"@);
    match find_from(s, ' ', 0) {
        None => Err(Error::CommandNotRecognised),
        Some(j) => {
            let tag = s.subrange(0, j);
            let rest = s.subrange(j + 1, s.len() as int);
            match find_from(rest, ' ', 0) {
                None => Ok((command_of(rest), tag, Seq::empty())),
                Some(k) => Ok(
                    (
                        command_of(rest.subrange(0, k)),
                        tag,
                        rest.subrange(k + 1, rest.len() as int),
                    ),
                ),
            }
        },
    }
}

/// What becomes of the connection after one command.
#[derive(Clone, Copy, Debug, PartialEq, Eq, Structural)]
pub enum Control {
    /// Keep reading commands.
    Open,
    /// LOGOUT: close once the lines are written.
    Bye,
    /// Too many unrecognised commands in a row: shut the connection
    /// down.
    Shutdown,
}

/// Everything the engine consults about the mailbox when one command
/// runs: the user's folders and a fresh enumeration of the inbox.
pub struct Mailbox {
    pub folders: Vec<String>,
    pub inbox: Vec<MailEntry>,
}

/// The full effect of one input line: the session afterwards, the
/// response lines in order, and what becomes of the connection.
pub ghost struct StepV {
    pub sess: SessionV,
    pub lines: Seq<Seq<char>>,
    pub ctl: Control,
}

/// The session with its run of unrecognised commands broken by a
/// recognised one.
pub open spec fn reset_bad(s: SessionV) -> SessionV {
    SessionV { bad_attempts: 0, ..s }
}

pub open spec fn ok_line(tag: Seq<char>, msg: Seq<char>) -> Seq<char> {
    line_of(Some(tag), Response::Okay, msg)
}

pub open spec fn bad_line(tag: Seq<char>, msg: Seq<char>) -> Seq<char> {
    line_of(Some(tag), Response::Bad, msg)
}

/// The completion a handler degrades to when a parse step fails.
pub open spec fn err_line(tag: Seq<char>, e: Error) -> Seq<char> {
    line_of(Some(tag), Response::Bad, error_text(e) + "\r\n"@)
}

/// An unrecognised verb: one more bad attempt, capped where the
/// connection is shut down anyway.
pub open spec fn unrecognised_step(s: SessionV, tag: Option<Seq<char>>) -> StepV {
    let new_bad: int = if s.bad_attempts < 3 {
        s.bad_attempts + 1
    } else {
        3
    };
    StepV {
        sess: SessionV { bad_attempts: new_bad, ..s },
        lines: seq![
            line_of(
                tag,
                Response::Bad,
                "Command Unrecognised, Attempts Remaining: "@ + dec_of((3 - new_bad) as nat)
                    + "\r\n"@,
            ),
        ],
        ctl: if new_bad >= 3 {
            Control::Shutdown
        } else {
            Control::Open
        },
    }
}

/// A recognised command refused while nobody is logged in.
pub open spec fn unauth_step(s: SessionV, tag: Seq<char>) -> StepV {
    StepV {
        sess: reset_bad(s),
        lines: seq![line_of(Some(tag), Response::Bad, "Not authenticated\r\n"@)],
        ctl: Control::Open,
    }
}

/// One folder line of a LIST response.
pub open spec fn list_line_of(f: Seq<char>) -> Seq<char> {
    if f == "\"\""@ {
        line_of(None, Response::Untagged, "LIST (\\Noselect \\HasChildren) \"/\" "@ + f + "\r\n"@)
    } else {
        line_of(None, Response::Untagged, "LIST (\\Marked \\HasNoChildren) \"/\" "@ + f + "\r\n"@)
    }
}

pub open spec fn list_lines(fs: Seq<Seq<char>>) -> Seq<Seq<char>> {
    Seq::new(fs.len(), |i: int| list_line_of(fs[i]))
}

/// FETCH responses go out untagged.
pub open spec fn star_lines(rs: Seq<Seq<char>>) -> Seq<Seq<char>> {
    Seq::new(rs.len(), |i: int| line_of(None, Response::Untagged, rs[i]))
}

/// The found UIDs, each preceded by one blank.
pub open spec fn sp_join(uids: Seq<Seq<char>>) -> Seq<char>
    decreases uids.len(),
{
    if uids.len() == 0 {
        Seq::empty()
    } else {
        " "@ + uids[0] + sp_join(uids.drop_first())
    }
}

/// The untagged lines SELECT emits for the inbox, from the session's
/// stored message count, and its tagged completion.
pub open spec fn select_lines(tag: Seq<char>, count: int) -> Seq<Seq<char>> {
    seq![
        line_of(None, Response::Untagged, dec_of(count as nat) + " EXISTS\r\n"@),
        line_of(None, Response::Untagged, dec_of(count as nat) + " RECENT\r\n"@),
        line_of(
            None,
            Response::Untagged,
            "FLAGS (\\Seen \\Answered \\Flagged \\Deleted \\Draft)\r\n"@,
        ),
        line_of(
            None,
            Response::Okay,
            "[PERMANENTFLAGS (\\Seen \\Answered \\Flagged \\Deleted \\Draft)] Permanent flags\r\n"@,
        ),
        line_of(None, Response::Okay, "[UIDVALIDITY 1]\r\n"@),
        line_of(None, Response::Okay, "[UNSEEN "@ + dec_of(count as nat) + "]\r\n"@),
        ok_line(tag, "[READ-WRITE] SELECT completed.\r\n"@),
    ]
}

/// A LOGIN: succeeds exactly when the credentials split into two
/// tokens, and then recounts the inbox.
pub open spec fn login_step(s: SessionV, tag: Seq<char>, msg: Seq<char>, inbox_len: int) -> StepV {
    if rfind(login_cleaned(msg), ' ') is Some {
        StepV {
            sess: SessionV {
                email: Some(login_user(msg)),
                username: Some(local_part(login_user(msg))),
                mail_count: inbox_len,
                authenticated: true,
                bad_attempts: 0,
            },
            lines: seq![ok_line(tag, "LOGIN completed.\r\n"@)],
            ctl: Control::Open,
        }
    } else {
        StepV {
            sess: reset_bad(s),
            lines: seq![bad_line(tag, "LOGIN failed.\r\n"@)],
            ctl: Control::Open,
        }
    }
}

/// The lines of a UID subcommand: SEARCH, FETCH, the COPY error path,
/// or the blanket acknowledgement.
pub open spec fn uid_lines(tag: Seq<char>, msg: Seq<char>, inbox: Seq<EntryV>) -> Seq<Seq<char>> {
    match find_from(msg, ' ', 0) {
        None => seq![err_line(tag, Error::CommandNotRecognised)],
        Some(j) => {
            let sub = msg.subrange(0, j);
            let rest = msg.subrange(j + 1, msg.len() as int);
            if sub == "SEARCH"@ {
                match search_spec(rest, inbox) {
                    Ok(uids) => seq![
                        line_of(None, Response::Untagged, "SEARCH"@ + sp_join(uids) + "\r\n"@),
                        ok_line(tag, "Search completed\r\n"@),
                    ],
                    Err(e) => seq![err_line(tag, e)],
                }
            } else if sub == "FETCH"@ {
                match fetch_uid_spec(rest, inbox) {
                    Ok(rs) => star_lines(rs).push(ok_line(tag, "FETCH completed.\r\n"@)),
                    Err(e) => seq![err_line(tag, e)],
                }
            } else if sub == "COPY"@ {
                seq![
                    line_of(
                        Some(tag),
                        Response::No,
                        "COPY error: "@ + error_text(Error::IMAPCopyErr) + "\r\n"@,
                    ),
                ]
            } else {
                seq![ok_line(tag, "FETCH Completed\r\n"@)]
            }
        },
    }
}

/// The engine's transition function: what one input line does to the
/// session, which lines it answers, and whether the connection stays
/// open.
pub open spec fn step(
    s: SessionV,
    line: Seq<char>,
    folders: Seq<Seq<char>>,
    inbox: Seq<EntryV>,
) -> StepV {
    match parse_response_spec(line) {
        Err(_) => unrecognised_step(s, None),
        Ok((cmd, tag, msg)) => match cmd {
            Command::Capability => StepV {
                sess: reset_bad(s),
                lines: seq![
                    line_of(None, Response::Untagged, "CAPABILITY IMAP4 IMAP4rev1 AUTH=PLAIN\r\n"@),
                    ok_line(tag, "CAPABILITY completed.\r\n"@),
                ],
                ctl: Control::Open,
            },
            Command::Noop => StepV {
                sess: reset_bad(s),
                lines: seq![ok_line(tag, "NOOP COMPLETED\r\n"@)],
                ctl: Control::Open,
            },
            Command::Login => login_step(s, tag, msg, inbox.len() as int),
            Command::Logout => StepV {
                sess: reset_bad(s),
                lines: seq![
                    line_of(None, Response::Untagged, "BYE\r\n"@),
                    ok_line(tag, "LOGOUT completed.\r\n"@),
                ],
                ctl: Control::Bye,
            },
            Command::Unrecognised => unrecognised_step(s, Some(tag)),
            _ => {
                if !s.authenticated {
                    unauth_step(s, tag)
                } else {
                    let lines = match cmd {
                        Command::Authenticate => seq![
                            line_of(Some(tag), Response::No, "AUTHENTICATE not implemented\r\n"@),
                        ],
                        Command::List => list_lines(list_spec(list_arg(msg), folders)).push(
                            ok_line(tag, "LIST completed.\r\n"@),
                        ),
                        Command::Select => {
                            if list_arg(msg) == "INBOX"@ {
                                select_lines(tag, s.mail_count)
                            } else {
                                seq![
                                    line_of(
                                        Some(tag),
                                        Response::No,
                                        "SELECT not implemented for that mailbox\r\n"@,
                                    ),
                                ]
                            }
                        },
                        Command::Lsub => seq![ok_line(tag, "LSUB completed.\r\n"@)],
                        Command::Status => seq![
                            line_of(Some(tag), Response::No, "STATUS not implemented\r\n"@),
                        ],
                        Command::Fetch => match fetch_seq_spec(msg, inbox) {
                            Ok(rs) => star_lines(rs).push(ok_line(tag, "FETCH completed.\r\n"@)),
                            Err(e) => seq![err_line(tag, e)],
                        },
                        Command::Create => seq![ok_line(tag, "CREATE completed.\r\n"@)],
                        Command::Uid => uid_lines(tag, msg, inbox),
                        Command::Subscribe => seq![ok_line(tag, "SUBSCRIBE Completed\r\n"@)],
                        _ => Seq::empty(),
                    };
                    StepV { sess: reset_bad(s), lines, ctl: Control::Open }
                }
            },
        },
    }
}

/// Three unrecognised verbs in a row shut the connection down: on the
/// third consecutive one (two bad attempts already standing), the
/// engine answers Shutdown; with fewer standing, the connection stays
/// open and the count grows by one.
pub proof fn lemma_unrecognised_counter(
    s: SessionV,
    line: Seq<char>,
    folders: Seq<Seq<char>>,
    inbox: Seq<EntryV>,
)
    requires
        parse_response_spec(line) matches Ok((cmd, _, _)) && cmd is Unrecognised,
        0 <= s.bad_attempts,
    ensures
        s.bad_attempts >= 2 ==> step(s, line, folders, inbox).ctl == Control::Shutdown,
        s.bad_attempts < 2 ==> step(s, line, folders, inbox).ctl == Control::Open && step(
            s,
            line,
            folders,
            inbox,
        ).sess.bad_attempts == s.bad_attempts + 1,
{
}

/// A recognised verb breaks a run of unrecognised ones: afterwards no
/// bad attempts stand, so earlier unknown verbs never add up to a
/// shutdown, and the engine never answers Shutdown to it.
pub proof fn lemma_recognised_resets(
    s: SessionV,
    line: Seq<char>,
    folders: Seq<Seq<char>>,
    inbox: Seq<EntryV>,
)
    requires
        parse_response_spec(line) matches Ok((cmd, _, _)) && !(cmd is Unrecognised),
    ensures
        step(s, line, folders, inbox).sess.bad_attempts == 0,
        step(s, line, folders, inbox).ctl != Control::Shutdown,
{
    let (cmd, tag, msg) = parse_response_spec(line)->Ok_0;
    match cmd {
        Command::Login => {
            assert(step(s, line, folders, inbox).sess.bad_attempts == 0);
        },
        _ => {},
    }
}

/// LOGOUT, from any prior session state, answers exactly the untagged
/// BYE line followed by its tagged OK completion, in that order, and
/// then closes the connection.
pub proof fn lemma_logout(s: SessionV, line: Seq<char>, folders: Seq<Seq<char>>, inbox: Seq<EntryV>)
    requires
        parse_response_spec(line) matches Ok((cmd, _, _)) && cmd is Logout,
    ensures
        ({
            let tag = parse_response_spec(line)->Ok_0.1;
            step(s, line, folders, inbox).lines == seq![
                line_of(None, Response::Untagged, "BYE\r\n"@),
                ok_line(tag, "LOGOUT completed.\r\n"@),
            ]
        }),
        step(s, line, folders, inbox).ctl == Control::Bye,
{
}

/// Push one rendered line.
fn push_line(out: &mut Vec<String>, l: String)
    ensures
        final(out)@.len() == old(out)@.len() + 1,
        final(out).deep_view() == old(out).deep_view().push(l@),
{
    let ghost lv = l@;
    out.push(l);
    proof {
        assert(final(out).deep_view() =~= old(out).deep_view().push(lv));
    }
}

/// Answer one unrecognised or unreadable command line.
fn unrecognised_exec(session: &mut UserSession, tag: Option<&str>) -> (r: (Vec<String>, Control))
    ensures
        ({
            let st = unrecognised_step(old(session)@, tag_seq_of(tag));
            &&& final(session)@ == st.sess
            &&& r.0.deep_view() == st.lines
            &&& r.1 == st.ctl
        }),
{
    let new_bad: u8 = if session.bad_attempts < 3 {
        session.bad_attempts + 1
    } else {
        3
    };
    session.bad_attempts = new_bad;
    let mut m = String::from_str("Command Unrecognised, Attempts Remaining: ");
    let rem = u64_to_string((3 - new_bad) as u64);
    m.append(rem.as_str());
    m.append("\r\n");
    let l = render_line(tag, Response::Bad, m.as_str());
    let mut out: Vec<String> = Vec::new();
    out.push(l);
    proof {
        assert(m@ =~= "Command Unrecognised, Attempts Remaining: "@ + dec_of((3 - new_bad) as nat)
            + "\r\n"@);
        assert(out.deep_view() =~= unrecognised_step(old(session)@, tag_seq_of(tag)).lines);
    }
    let ctl = if new_bad >= 3 {
        Control::Shutdown
    } else {
        Control::Open
    };
    (out, ctl)
}

/// Run one input line against the session and a fresh mailbox
/// snapshot: the returned lines go to the client in order, and the
/// control value says whether the connection stays open.
pub fn handle_command(session: &mut UserSession, line: String, mailbox: &Mailbox) -> (r: (
    Vec<String>,
    Control,
))
    requires
        snapshot_wf(mailbox.inbox@),
    ensures
        ({
            let st = step(
                old(session)@,
                line@,
                mailbox.folders.deep_view(),
                mailbox.inbox.deep_view(),
            );
            &&& final(session)@ == st.sess
            &&& r.0.deep_view() == st.lines
            &&& r.1 == st.ctl
        }),
        old(session).wf() ==> final(session).wf(),
{
    let ghost st = step(
        old(session)@,
        line@,
        mailbox.folders.deep_view(),
        mailbox.inbox.deep_view(),
    );
    let (cmd, tag_opt, msg) = match parse_response(line) {
        Err(_) => {
            return unrecognised_exec(session, None);
        },
        Ok(t) => t,
    };
    let tag: String = match tag_opt {
        Some(t) => t,
        None => {
            // a successful parse always carries a tag
            proof {
                assert(false);
            }
            String::new()
        },
    };
    if let Command::Unrecognised = cmd {
        return unrecognised_exec(session, Some(tag.as_str()));
    }
    session.bad_attempts = 0;
    let mut out: Vec<String> = Vec::new();
    match cmd {
        Command::Capability => {
            push_line(&mut out, render_line(None, Response::Untagged, "CAPABILITY IMAP4 IMAP4rev1 AUTH=PLAIN\r\n"));
            push_line(&mut out, render_line(Some(tag.as_str()), Response::Okay, "CAPABILITY completed.\r\n"));
            proof {
                assert(out.deep_view() =~= st.lines);
            }
            (out, Control::Open)
        },
        Command::Noop => {
            push_line(&mut out, render_line(Some(tag.as_str()), Response::Okay, "NOOP COMPLETED\r\n"));
            proof {
                assert(out.deep_view() =~= st.lines);
            }
            (out, Control::Open)
        },
        Command::Login => {
            let ok = session.authenticate(msg.as_str());
            if ok {
                push_line(&mut out, render_line(Some(tag.as_str()), Response::Okay, "LOGIN completed.\r\n"));
                let counted = session.count_emails(&mailbox.inbox);
                proof {
                    assert(counted is Ok);
                    assert(mailbox.inbox.deep_view().len() == mailbox.inbox@.len());
                    assert(out.deep_view() =~= st.lines);
                }
            } else {
                push_line(&mut out, render_line(Some(tag.as_str()), Response::Bad, "LOGIN failed.\r\n"));
                proof {
                    assert(out.deep_view() =~= st.lines);
                }
            }
            (out, Control::Open)
        },
        Command::Logout => {
            push_line(&mut out, render_line(None, Response::Untagged, "BYE\r\n"));
            push_line(&mut out, render_line(Some(tag.as_str()), Response::Okay, "LOGOUT completed.\r\n"));
            proof {
                assert(out.deep_view() =~= st.lines);
            }
            (out, Control::Bye)
        },
        Command::Unrecognised => {
            // answered above, before the bad-attempt reset
            proof {
                assert(false);
            }
            (out, Control::Open)
        },
        _ => {
            if !session.authenticated {
                push_line(&mut out, render_line(Some(tag.as_str()), Response::Bad, "Not authenticated\r\n"));
                proof {
                    assert(out.deep_view() =~= st.lines);
                }
                return (out, Control::Open);
            }
            match cmd {
                Command::Authenticate => {
                    push_line(
                        &mut out,
                        render_line(
                            Some(tag.as_str()),
                            Response::No,
                            "AUTHENTICATE not implemented\r\n",
                        ),
                    );
                    proof {
                        assert(out.deep_view() =~= st.lines);
                    }
                },
                Command::List => {
                    let fs = match session.list(msg.as_str(), &mailbox.folders) {
                        Ok(fs) => fs,
                        Err(_) => {
                            // LIST resolution never fails
                            proof {
                                assert(false);
                            }
                            Vec::new()
                        },
                    };
                    let ghost fsv = list_spec(list_arg(msg@), mailbox.folders.deep_view());
                    let mut i: usize = 0;
                    while i < fs.len()
                        invariant
                            i <= fs.len(),
                            fs.deep_view() == fsv,
                            out@.len() == i,
                            forall|k: int|
                                0 <= k < i ==> #[trigger] out.deep_view()[k] == list_line_of(
                                    fsv[k],
                                ),
                        decreases fs.len() - i,
                    {
                        let f = &fs[i];
                        let mut m: String;
                        if str_eq(f.as_str(), "\"\"") {
                            m = String::from_str("LIST (\\Noselect \\HasChildren) \"/\" ");
                        } else {
                            m = String::from_str("LIST (\\Marked \\HasNoChildren) \"/\" ");
                        }
                        m.append(f.as_str());
                        m.append("\r\n");
                        proof {
                            assert(m@ =~= (if fsv[i as int] == "\"\""@ {
                                "LIST (\\Noselect \\HasChildren) \"/\" "@ + fsv[i as int]
                                    + "\r\n"@
                            } else {
                                "LIST (\\Marked \\HasNoChildren) \"/\" "@ + fsv[i as int]
                                    + "\r\n"@
                            }));
                        }
                        let l = render_line(None, Response::Untagged, m.as_str());
                        proof {
                            assert(l@ == list_line_of(fsv[i as int]));
                        }
                        let ghost prev = out.deep_view();
                        out.push(l);
                        proof {
                            assert(forall|k: int|
                                0 <= k < i ==> #[trigger] out.deep_view()[k] == prev[k]);
                            assert(out.deep_view()[i as int] == l@);
                        }
                        i += 1;
                    }
                    push_line(&mut out, render_line(Some(tag.as_str()), Response::Okay, "LIST completed.\r\n"));
                    proof {
                        assert(out.deep_view() =~= st.lines);
                    }
                },
                Command::Select => {
                    let token = last_token(msg.as_str(), ' ');
                    let stripped = strip_chars(token, "\"");
                    let arg = to_upper(stripped.as_str());
                    if str_eq(arg.as_str(), "INBOX") {
                        let count = u64_to_string(session.mail_count as u64);
                        let mut m1 = count.clone();
                        m1.append(" EXISTS\r\n");
                        push_line(&mut out, render_line(None, Response::Untagged, m1.as_str()));
                        let mut m2 = count.clone();
                        m2.append(" RECENT\r\n");
                        push_line(&mut out, render_line(None, Response::Untagged, m2.as_str()));
                        push_line(
                            &mut out,
                            render_line(
                                None,
                                Response::Untagged,
                                "FLAGS (\\Seen \\Answered \\Flagged \\Deleted \\Draft)\r\n",
                            ),
                        );
                        push_line(
                            &mut out,
                            render_line(
                                None,
                                Response::Okay,
                                "[PERMANENTFLAGS (\\Seen \\Answered \\Flagged \\Deleted \\Draft)] Permanent flags\r\n",
                            ),
                        );
                        push_line(&mut out, render_line(None, Response::Okay, "[UIDVALIDITY 1]\r\n"));
                        let mut m3 = String::from_str("[UNSEEN ");
                        m3.append(count.as_str());
                        m3.append("]\r\n");
                        push_line(&mut out, render_line(None, Response::Okay, m3.as_str()));
                        push_line(
                            &mut out,
                            render_line(
                                Some(tag.as_str()),
                                Response::Okay,
                                "[READ-WRITE] SELECT completed.\r\n",
                            ),
                        );
                        proof {
                            assert(out.deep_view() =~= st.lines);
                        }
                    } else {
                        push_line(
                            &mut out,
                            render_line(
                                Some(tag.as_str()),
                                Response::No,
                                "SELECT not implemented for that mailbox\r\n",
                            ),
                        );
                        proof {
                            assert(out.deep_view() =~= st.lines);
                        }
                    }
                },
                Command::Lsub => {
                    push_line(&mut out, render_line(Some(tag.as_str()), Response::Okay, "LSUB completed.\r\n"));
                    proof {
                        assert(out.deep_view() =~= st.lines);
                    }
                },
                Command::Status => {
                    push_line(
                        &mut out,
                        render_line(Some(tag.as_str()), Response::No, "STATUS not implemented\r\n"),
                    );
                    proof {
                        assert(out.deep_view() =~= st.lines);
                    }
                },
                Command::Fetch => {
                    match session.fetch_seq(msg.as_str(), &mailbox.inbox) {
                        Ok(rs) => {
                            push_star_lines(&mut out, &rs);
                            push_line(
                                &mut out,
                                render_line(
                                    Some(tag.as_str()),
                                    Response::Okay,
                                    "FETCH completed.\r\n",
                                ),
                            );
                            proof {
                                assert(out.deep_view() =~= st.lines);
                            }
                        },
                        Err(e) => {
                            push_err_line(&mut out, tag.as_str(), e);
                            proof {
                                assert(out.deep_view() =~= st.lines);
                            }
                        },
                    }
                },
                Command::Create => {
                    push_line(
                        &mut out,
                        render_line(Some(tag.as_str()), Response::Okay, "CREATE completed.\r\n"),
                    );
                    proof {
                        assert(out.deep_view() =~= st.lines);
                    }
                },
                Command::Uid => {
                    uid_exec(session, &mut out, tag.as_str(), msg.as_str(), mailbox);
                    proof {
                        assert(out.deep_view() =~= st.lines);
                    }
                },
                Command::Subscribe => {
                    push_line(
                        &mut out,
                        render_line(Some(tag.as_str()), Response::Okay, "SUBSCRIBE Completed\r\n"),
                    );
                    proof {
                        assert(out.deep_view() =~= st.lines);
                    }
                },
                _ => {
                    // the verbs with their own handling stand in the outer match
                    proof {
                        assert(false);
                    }
                },
            }
            (out, Control::Open)
        },
    }
}

/// Push every FETCH response as an untagged line.
fn push_star_lines(out: &mut Vec<String>, rs: &Vec<String>)
    requires
        old(out)@.len() == 0,
    ensures
        final(out).deep_view() == star_lines(rs.deep_view()),
{
    let mut i: usize = 0;
    while i < rs.len()
        invariant
            i <= rs.len(),
            out@.len() == i,
            forall|k: int|
                0 <= k < i ==> #[trigger] out.deep_view()[k] == line_of(
                    None,
                    Response::Untagged,
                    rs.deep_view()[k],
                ),
        decreases rs.len() - i,
    {
        let l = render_line(None, Response::Untagged, rs[i].as_str());
        proof {
            assert(l@ == line_of(None, Response::Untagged, rs.deep_view()[i as int]));
        }
        let ghost prev = out.deep_view();
        out.push(l);
        proof {
            assert(forall|k: int| 0 <= k < i ==> #[trigger] out.deep_view()[k] == prev[k]);
            assert(out.deep_view()[i as int] == l@);
        }
        i += 1;
    }
    proof {
        assert(out.deep_view() =~= star_lines(rs.deep_view()));
    }
}

/// Push the completion a handler degrades to on a parse failure.
fn push_err_line(out: &mut Vec<String>, tag: &str, e: Error)
    ensures
        final(out)@.len() == old(out)@.len() + 1,
        final(out).deep_view() == old(out).deep_view().push(err_line(tag@, e)),
{
    let mut m = String::from_str(e.text());
    m.append("\r\n");
    let l = render_line(Some(tag), Response::Bad, m.as_str());
    proof {
        assert(l@ =~= err_line(tag@, e));
    }
    out.push(l);
    proof {
        assert(out.deep_view() =~= old(out).deep_view().push(err_line(tag@, e)));
    }
}

/// Dispatch a UID subcommand: SEARCH, FETCH, COPY or the blanket
/// acknowledgement.
fn uid_exec(session: &UserSession, out: &mut Vec<String>, tag: &str, msg: &str, mailbox: &Mailbox)
    requires
        snapshot_wf(mailbox.inbox@),
        old(out)@.len() == 0,
    ensures
        final(out).deep_view() == uid_lines(tag@, msg@, mailbox.inbox.deep_view()),
{
    let mlen = msg.unicode_len();
    let j = match find_char_from(msg, ' ', 0) {
        None => {
            push_err_line(out, tag, Error::CommandNotRecognised);
            proof {
                assert(out.deep_view() =~= uid_lines(tag@, msg@, mailbox.inbox.deep_view()));
            }
            return ;
        },
        Some(j) => j,
    };
    proof {
        lemma_find_from_bounds(msg@, ' ', 0);
    }
    let sub = msg.substring_char(0, j);
    let rest = msg.substring_char(j + 1, mlen);
    if str_eq(sub, "SEARCH") {
        match session.search(rest, &mailbox.inbox) {
            Ok(uids) => {
                let mut m = String::from_str("SEARCH");
                let ghost uv = uids.deep_view();
                let mut i: usize = 0;
                proof {
                    assert(uv.skip(0) =~= uv);
                }
                while i < uids.len()
                    invariant
                        i <= uids.len(),
                        uv == uids.deep_view(),
                        "SEARCH"@ + sp_join(uv) == m@ + sp_join(uv.skip(i as int)),
                    decreases uids.len() - i,
                {
                    proof {
                        assert(uv.skip(i as int)[0] == uids.deep_view()[i as int]);
                        assert(uv.skip(i as int).drop_first() =~= uv.skip(i + 1));
                    }
                    m.append(" ");
                    m.append(uids[i].as_str());
                    proof {
                        assert("SEARCH"@ + sp_join(uv) =~= m@ + sp_join(uv.skip(i + 1)));
                    }
                    i += 1;
                }
                proof {
                    assert(uv.skip(i as int) =~= Seq::<Seq<char>>::empty());
                    assert(m@ =~= "SEARCH"@ + sp_join(uv));
                }
                m.append("\r\n");
                push_line(out, render_line(None, Response::Untagged, m.as_str()));
                push_line(out, render_line(Some(tag), Response::Okay, "Search completed\r\n"));
                proof {
                    assert(out.deep_view() =~= uid_lines(tag@, msg@, mailbox.inbox.deep_view()));
                }
            },
            Err(e) => {
                push_err_line(out, tag, e);
                proof {
                    assert(out.deep_view() =~= uid_lines(tag@, msg@, mailbox.inbox.deep_view()));
                }
            },
        }
    } else if str_eq(sub, "FETCH") {
        match session.fetch_uid(rest, &mailbox.inbox) {
            Ok(rs) => {
                push_star_lines(out, &rs);
                push_line(out, render_line(Some(tag), Response::Okay, "FETCH completed.\r\n"));
                proof {
                    assert(out.deep_view() =~= uid_lines(tag@, msg@, mailbox.inbox.deep_view()));
                }
            },
            Err(e) => {
                push_err_line(out, tag, e);
                proof {
                    assert(out.deep_view() =~= uid_lines(tag@, msg@, mailbox.inbox.deep_view()));
                }
            },
        }
    } else if str_eq(sub, "COPY") {
        match session.copy(rest) {
            Err(e) => {
                let mut m = String::from_str("COPY error: ");
                m.append(e.text());
                m.append("\r\n");
                push_line(out, render_line(Some(tag), Response::No, m.as_str()));
                proof {
                    assert(m@ =~= "COPY error: "@ + error_text(Error::IMAPCopyErr) + "\r\n"@);
                    assert(out.deep_view() =~= uid_lines(tag@, msg@, mailbox.inbox.deep_view()));
                }
            },
            Ok(_) => {
                // COPY never succeeds
                proof {
                    assert(false);
                }
            },
        }
    } else {
        push_line(out, render_line(Some(tag), Response::Okay, "FETCH Completed\r\n"));
        proof {
            assert(out.deep_view() =~= uid_lines(tag@, msg@, mailbox.inbox.deep_view()));
        }
    }
}

/// Split one input line into its command, tag and argument string.
pub fn parse_response(res: String) -> (r: IMAPResult<(Command, Option<String>, String)>)
    ensures
        r is Ok <==> (parse_response_spec(res@) is Ok),
        r is Ok ==> {
            let (cmd, tag, msg) = parse_response_spec(res@)->Ok_0;
            &&& r->Ok_0.0 == cmd
            &&& r->Ok_0.1 matches Some(t) && t@ == tag
            &&& r->Ok_0.2@ == msg
        },
        r is Err ==> r->Err_0 == Error::CommandNotRecognised,
{
    let s = strip_chars(res.as_str(), "\r\n");
    let slen = s.as_str().unicode_len();
    let j = match find_char_from(s.as_str(), ' ', 0) {
        None => {
            return Err(Error::CommandNotRecognised);
        },
        Some(j) => j,
    };
    proof {
        lemma_find_from_bounds(s@, ' ', 0);
    }
    let tag = s.as_str().substring_char(0, j).to_owned();
    let rest = s.as_str().substring_char(j + 1, slen);
    let rlen = rest.unicode_len();
    match find_char_from(rest, ' ', 0) {
        None => {
            let cmd = Command::parse(rest);
            Ok((cmd, Some(tag), String::new()))
        },
        Some(k) => {
            proof {
                lemma_find_from_bounds(rest@, ' ', 0);
            }
            let verb = rest.substring_char(0, k);
            let msg = rest.substring_char(k + 1, rlen).to_owned();
            let cmd = Command::parse(verb);
            Ok((cmd, Some(tag), msg))
        },
    }
}

} // verus!
