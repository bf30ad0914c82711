//! The command engine end to end: greeting, parsing, dispatch, the
//! unrecognised-command counter and the LOGOUT exchange.
use imap_core::Command;
use imap_core::Control;
use imap_core::Mailbox;
use imap_core::MailEntry;
use imap_core::UserSession;
use imap_core::greeting;
use imap_core::handle_command;
use imap_core::parse_response;

fn mailbox() -> Mailbox {
    let mut inbox = Vec::new();
    for k in 0..3u32 {
        let name = format!("16376668{:02}.5s.eml", k);
        let contents = format!("To: a@b\r\nSubject: mail {}\r\n", k);
        inbox.push(MailEntry::new(name.as_str(), 1637666812, contents.as_str()));
    }
    Mailbox { folders: vec!["INBOX".to_owned()], inbox }
}

fn logged_in() -> UserSession {
    let mut s = UserSession::new();
    s.authenticate("\"test@ashdown.scot\" tset");
    s
}

#[test]
fn greeting_line_is_exact() {
    assert_eq!(greeting(), "* OK IMAP4 Service Ready.\r\n");
}

#[test]
fn parse_response_splits_tag_verb_and_rest() {
    let (cmd, tag, msg) = parse_response("a1 login user pass\r\n".to_owned()).unwrap();
    assert_eq!(cmd, Command::Login);
    assert_eq!(tag.as_deref(), Some("a1"));
    assert_eq!(msg, "user pass");

    let (cmd, tag, msg) = parse_response("a2 NOOP\r\n".to_owned()).unwrap();
    assert_eq!(cmd, Command::Noop);
    assert_eq!(tag.as_deref(), Some("a2"));
    assert_eq!(msg, "");

    assert!(parse_response("loneword\r\n".to_owned()).is_err());
}

#[test]
fn capability_is_answered_before_login() {
    let mut s = UserSession::new();
    let (lines, ctl) = handle_command(&mut s, "a1 CAPABILITY\r\n".to_owned(), &mailbox());
    assert_eq!(
        lines,
        vec![
            "* CAPABILITY IMAP4 IMAP4rev1 AUTH=PLAIN\r\n",
            "a1 OK CAPABILITY completed.\r\n",
        ]
    );
    assert_eq!(ctl, Control::Open);
}

#[test]
fn login_counts_the_inbox() {
    let mut s = UserSession::new();
    let (lines, ctl) = handle_command(
        &mut s,
        "a1 LOGIN \"test@ashdown.scot\" tset\r\n".to_owned(),
        &mailbox(),
    );
    assert_eq!(lines, vec!["a1 OK LOGIN completed.\r\n"]);
    assert_eq!(ctl, Control::Open);
    assert!(s.authenticated);
    assert_eq!(s.mail_count, 3);

    let mut s2 = UserSession::new();
    let (lines, _) = handle_command(&mut s2, "a1 LOGIN loneword\r\n".to_owned(), &mailbox());
    assert_eq!(lines, vec!["a1 BAD LOGIN failed.\r\n"]);
    assert!(!s2.authenticated);
}

#[test]
fn commands_before_login_are_rejected() {
    let mut s = UserSession::new();
    let (lines, ctl) = handle_command(&mut s, "a1 FETCH 1 (UID)\r\n".to_owned(), &mailbox());
    assert_eq!(lines, vec!["a1 BAD Not authenticated\r\n"]);
    assert_eq!(ctl, Control::Open);
}

#[test]
fn three_unknown_verbs_close_the_connection() {
    let mut s = logged_in();
    let (_, c1) = handle_command(&mut s, "a1 FROB\r\n".to_owned(), &mailbox());
    assert_eq!(c1, Control::Open);
    let (_, c2) = handle_command(&mut s, "a2 FROB\r\n".to_owned(), &mailbox());
    assert_eq!(c2, Control::Open);
    let (lines, c3) = handle_command(&mut s, "a3 FROB\r\n".to_owned(), &mailbox());
    assert_eq!(c3, Control::Shutdown);
    assert_eq!(
        lines,
        vec!["a3 BAD Command Unrecognised, Attempts Remaining: 0\r\n"]
    );
}

#[test]
fn a_valid_verb_breaks_a_run_of_unknown_ones() {
    let mut s = logged_in();
    let (_, c1) = handle_command(&mut s, "a1 FROB\r\n".to_owned(), &mailbox());
    assert_eq!(c1, Control::Open);
    let (_, c2) = handle_command(&mut s, "a2 FROB\r\n".to_owned(), &mailbox());
    assert_eq!(c2, Control::Open);
    let (_, c3) = handle_command(&mut s, "a3 NOOP\r\n".to_owned(), &mailbox());
    assert_eq!(c3, Control::Open);
    assert_eq!(s.bad_attempts, 0);
    let (_, c4) = handle_command(&mut s, "a4 FROB\r\n".to_owned(), &mailbox());
    assert_eq!(c4, Control::Open);
}

#[test]
fn logout_says_bye_then_ok_from_any_state() {
    let mut fresh = UserSession::new();
    let (lines, ctl) = handle_command(&mut fresh, "a1 LOGOUT\r\n".to_owned(), &mailbox());
    assert_eq!(lines, vec!["* BYE\r\n", "a1 OK LOGOUT completed.\r\n"]);
    assert_eq!(ctl, Control::Bye);

    let mut s = logged_in();
    handle_command(&mut s, "a1 FROB\r\n".to_owned(), &mailbox());
    let (lines, ctl) = handle_command(&mut s, "a2 LOGOUT\r\n".to_owned(), &mailbox());
    assert_eq!(lines, vec!["* BYE\r\n", "a2 OK LOGOUT completed.\r\n"]);
    assert_eq!(ctl, Control::Bye);
}

#[test]
fn select_inbox_reports_the_stored_count() {
    let mut s = logged_in();
    handle_command(&mut s, "a1 LOGIN \"test@ashdown.scot\" tset\r\n".to_owned(), &mailbox());
    let (lines, ctl) = handle_command(&mut s, "a2 SELECT \"INBOX\"\r\n".to_owned(), &mailbox());
    assert_eq!(
        lines,
        vec![
            "* 3 EXISTS\r\n",
            "* 3 RECENT\r\n",
            "* FLAGS (\\Seen \\Answered \\Flagged \\Deleted \\Draft)\r\n",
            "* OK [PERMANENTFLAGS (\\Seen \\Answered \\Flagged \\Deleted \\Draft)] Permanent flags\r\n",
            "* OK [UIDVALIDITY 1]\r\n",
            "* OK [UNSEEN 3]\r\n",
            "a2 OK [READ-WRITE] SELECT completed.\r\n",
        ]
    );
    assert_eq!(ctl, Control::Open);

    let (lines, _) = handle_command(&mut s, "a3 SELECT \"OUTBOX\"\r\n".to_owned(), &mailbox());
    assert_eq!(lines, vec!["a3 NO SELECT not implemented for that mailbox\r\n"]);
}

#[test]
fn fetch_dispatches_and_completes() {
    let mut s = logged_in();
    let (lines, _) = handle_command(&mut s, "a1 FETCH 1 (UID)\r\n".to_owned(), &mailbox());
    assert_eq!(
        lines,
        vec![
            "* 1 FETCH (UID 16376668005)\r\n",
            "a1 OK FETCH completed.\r\n",
        ]
    );

    let (lines, _) = handle_command(&mut s, "a2 FETCH zz (UID)\r\n".to_owned(), &mailbox());
    assert_eq!(lines, vec!["a2 BAD bad message selector\r\n"]);
}

#[test]
fn uid_subcommands_dispatch() {
    let mut s = logged_in();
    let (lines, _) = handle_command(
        &mut s,
        "a1 UID SEARCH SINCE 04-Dec-2021\r\n".to_owned(),
        &mailbox(),
    );
    assert_eq!(lines, vec!["* SEARCH\r\n", "a1 OK Search completed\r\n"]);

    let (lines, _) = handle_command(
        &mut s,
        "a2 UID SEARCH SINCE 04-Dec-2020\r\n".to_owned(),
        &mailbox(),
    );
    assert_eq!(
        lines,
        vec![
            "* SEARCH 16376668005 16376668015 16376668025\r\n",
            "a2 OK Search completed\r\n",
        ]
    );

    let (lines, _) = handle_command(
        &mut s,
        "a3 UID FETCH 16376668015 (UID)\r\n".to_owned(),
        &mailbox(),
    );
    assert_eq!(
        lines,
        vec![
            "* 2 FETCH (UID 16376668015)\r\n",
            "a3 OK FETCH completed.\r\n",
        ]
    );

    let (lines, _) = handle_command(&mut s, "a4 UID COPY 1 INBOX\r\n".to_owned(), &mailbox());
    assert_eq!(lines, vec!["a4 NO COPY error: COPY failed\r\n"]);

    let (lines, _) = handle_command(&mut s, "a5 UID STORE 1 x\r\n".to_owned(), &mailbox());
    assert_eq!(lines, vec!["a5 OK FETCH Completed\r\n"]);
}

#[test]
fn stub_commands_answer_as_specified() {
    let mut s = logged_in();
    let (lines, _) = handle_command(&mut s, "a1 LSUB a b\r\n".to_owned(), &mailbox());
    assert_eq!(lines, vec!["a1 OK LSUB completed.\r\n"]);
    let (lines, _) = handle_command(&mut s, "a2 STATUS INBOX\r\n".to_owned(), &mailbox());
    assert_eq!(lines, vec!["a2 NO STATUS not implemented\r\n"]);
    let (lines, _) = handle_command(&mut s, "a3 CREATE folder\r\n".to_owned(), &mailbox());
    assert_eq!(lines, vec!["a3 OK CREATE completed.\r\n"]);
    let (lines, _) = handle_command(&mut s, "a4 SUBSCRIBE x\r\n".to_owned(), &mailbox());
    assert_eq!(lines, vec!["a4 OK SUBSCRIBE Completed\r\n"]);
    let (lines, _) = handle_command(&mut s, "a5 AUTHENTICATE PLAIN\r\n".to_owned(), &mailbox());
    assert_eq!(lines, vec!["a5 NO AUTHENTICATE not implemented\r\n"]);
    let (lines, _) = handle_command(&mut s, "a6 NOOP\r\n".to_owned(), &mailbox());
    assert_eq!(lines, vec!["a6 OK NOOP COMPLETED\r\n"]);
}

#[test]
fn list_renders_folder_lines() {
    let mut s = logged_in();
    let (lines, _) = handle_command(&mut s, "a1 LIST \"\" \"*\"\r\n".to_owned(), &mailbox());
    assert_eq!(
        lines,
        vec![
            "* LIST (\\Marked \\HasNoChildren) \"/\" INBOX\r\n",
            "a1 OK LIST completed.\r\n",
        ]
    );
    let (lines, _) = handle_command(&mut s, "a2 LIST \"\" \"\"\r\n".to_owned(), &mailbox());
    assert_eq!(
        lines,
        vec![
            "* LIST (\\Noselect \\HasChildren) \"/\" \"\"\r\n",
            "a2 OK LIST completed.\r\n",
        ]
    );
}

#[test]
fn verbs_are_read_without_regard_to_case() {
    let mut s = logged_in();
    let (lines, _) = handle_command(&mut s, "a1 noop\r\n".to_owned(), &mailbox());
    assert_eq!(lines, vec!["a1 OK NOOP COMPLETED\r\n"]);
}
