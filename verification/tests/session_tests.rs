//! UID derivation, selector resolution, the FETCH drivers and the
//! SEARCH filter, over snapshots built in memory.
use imap_core::Error;
use imap_core::MailEntry;
use imap_core::UserSession;
use imap_core::filename_to_uid;

fn entry(name: &str, ts: i64) -> MailEntry {
    let contents = format!("To: a@b\r\nSubject: mail in {}\r\n", name);
    MailEntry::new(name, ts, contents.as_str())
}

/// Ten messages, filenames encoding increasing timestamps.
fn inbox() -> Vec<MailEntry> {
    let mut v = Vec::new();
    for k in 0..10u32 {
        let name = format!("16376668{:02}.5s.eml", k);
        v.push(entry(name.as_str(), 1637666812));
    }
    v
}

fn logged_in() -> UserSession {
    let mut session = UserSession::new();
    session.authenticate("\"test@ashdown.scot\" tset");
    session
}

#[test]
fn fetch_seq_single() {
    let session = logged_in();
    let res = session.fetch_seq("9 (UID)", &inbox()).unwrap();
    println!("{:#?}", res);
    assert_eq!(res, vec!["9 FETCH (UID 16376668085)\r\n"]);
}

#[test]
fn fetch_seq_range() {
    let session = logged_in();
    let res = session.fetch_seq("1:7 (UID)", &inbox()).unwrap();
    println!("{:#?}", res);
    assert_eq!(res.len(), 7);
    assert_eq!(res[0], "1 FETCH (UID 16376668005)\r\n");
    assert_eq!(res[6], "7 FETCH (UID 16376668065)\r\n");
}

#[test]
fn fetch_seq_list() {
    let session = logged_in();
    let res = session.fetch_seq("1,2,4,5 (UID)", &inbox()).unwrap();
    println!("{:#?}", res);
    assert_eq!(
        res,
        vec![
            "1 FETCH (UID 16376668005)\r\n",
            "2 FETCH (UID 16376668015)\r\n",
            "4 FETCH (UID 16376668035)\r\n",
            "5 FETCH (UID 16376668045)\r\n",
        ]
    );
}

#[test]
fn fetch_uid_single() {
    let session = logged_in();
    let mut snapshot = inbox();
    snapshot.push(entry("8714236.9s.eml", 1637666812));
    let res = session
        .fetch_uid(
            "87142369,87142369 (UID FLAGS RFC822.SIZE BODY.PEEK[] INTERNALDATE)",
            &snapshot,
        )
        .unwrap();
    println!("{:#?}", res);
    assert_eq!(res.len(), 1);
    assert!(res[0].starts_with("11 FETCH (UID 87142369 FLAGS (\\Recent) RFC822.SIZE "));
    assert!(res[0].contains("INTERNALDATE \"2021-Nov-23 11:26:52 +0000\""));
}

#[test]
fn search() {
    let session = logged_in();
    let res = session.search("SINCE 04-Dec-2021", &inbox()).unwrap();
    println!("{:#?}", res);
    assert_eq!(res, Vec::<String>::new());
}

#[test]
fn uid_derivation_is_exact() {
    assert_eq!(filename_to_uid("1637666812.123s.eml").unwrap(), 16376668121);
    assert_eq!(filename_to_uid("1637666812s.eml").unwrap(), 16376668120);
    assert_eq!(filename_to_uid("3s.eml").unwrap(), 30);
}

#[test]
fn uid_derivation_is_monotonic_in_the_timestamp() {
    let early = filename_to_uid("1637666812.1s.eml").unwrap();
    let later = filename_to_uid("1637666812.2s.eml").unwrap();
    let much_later = filename_to_uid("1637666813.0s.eml").unwrap();
    assert!(early < later);
    assert!(later < much_later);
    assert_ne!(early, later);
}

#[test]
fn uid_derivation_refuses_other_names() {
    assert_eq!(filename_to_uid("notes.txt").unwrap_err(), Error::BadMessageFile);
    assert_eq!(filename_to_uid("s.eml").unwrap_err(), Error::BadMessageFile);
    assert_eq!(filename_to_uid("12x4s.eml").unwrap_err(), Error::BadMessageFile);
}

#[test]
fn selector_list_never_yields_more_than_named() {
    let session = logged_in();
    let res = session.fetch_seq("1,3 (UID)", &inbox()).unwrap();
    assert_eq!(res.len(), 2);
    let res = session.fetch_seq("3 (UID)", &inbox()).unwrap();
    assert_eq!(res, vec!["3 FETCH (UID 16376668025)\r\n"]);
    let res = session.fetch_seq("2:4 (UID)", &inbox()).unwrap();
    assert_eq!(
        res,
        vec![
            "2 FETCH (UID 16376668015)\r\n",
            "3 FETCH (UID 16376668025)\r\n",
            "4 FETCH (UID 16376668035)\r\n",
        ]
    );
}

#[test]
fn selector_errors_are_specific() {
    let session = logged_in();
    assert_eq!(
        session.fetch_seq("x (UID)", &inbox()).unwrap_err(),
        Error::BadSelector
    );
    assert_eq!(
        session.fetch_seq("99 (UID)", &inbox()).unwrap_err(),
        Error::NoSuchMessage
    );
    assert_eq!(
        session.fetch_seq("1", &inbox()).unwrap_err(),
        Error::UnsupportedFetch
    );
    let stray = vec![entry("desktop.ini", 0)];
    assert_eq!(
        session.fetch_seq("1 (UID)", &stray).unwrap_err(),
        Error::BadMessageFile
    );
}

#[test]
fn uid_fetch_range_is_a_true_range() {
    let session = logged_in();
    // UIDs run from 16376668005 to 16376668095.
    let res = session
        .fetch_uid("16376668015:16376668035 (UID)", &inbox())
        .unwrap();
    assert_eq!(
        res,
        vec![
            "2 FETCH (UID 16376668015)\r\n",
            "3 FETCH (UID 16376668025)\r\n",
            "4 FETCH (UID 16376668035)\r\n",
        ]
    );
}

#[test]
fn search_is_strictly_after_the_named_day() {
    let session = logged_in();
    // 04-Dec-2021 00:00:00 UTC is 1638576000.
    let snapshot = vec![
        entry("1638575999.9s.eml", 1638575999),
        entry("1638576000s.eml", 1638576000),
        entry("1638576000.5s.eml", 1638576000),
        entry("1638576001s.eml", 1638576001),
    ];
    let res = session.search("SINCE 04-Dec-2021", &snapshot).unwrap();
    assert_eq!(res, vec!["16385760005", "16385760010"]);
}

#[test]
fn search_date_errors_are_specific() {
    let session = logged_in();
    let snapshot = inbox();
    assert_eq!(
        session.search("SINCE 04-Foo-2021", &snapshot).unwrap_err(),
        Error::NotAMonth
    );
    assert_eq!(
        session.search("SINCE 32-Dec-2021", &snapshot).unwrap_err(),
        Error::TimeDate
    );
    assert_eq!(
        session.search("SINCE 29-Feb-2021", &snapshot).unwrap_err(),
        Error::TimeDate
    );
    assert_eq!(
        session.search("SINCE 00-Dec-2021", &snapshot).unwrap_err(),
        Error::TimeDate
    );
    assert_eq!(
        session.search("SINCE 04-Dec-10000", &snapshot).unwrap_err(),
        Error::TimeDate
    );
}

#[test]
fn search_before_the_epoch_matches_every_message() {
    let session = logged_in();
    let mut snapshot = inbox();
    snapshot.push(entry("0s.eml", 0));
    let res = session.search("SINCE 04-Dec-1960", &snapshot).unwrap();
    assert_eq!(res.len(), 11);
    assert_eq!(res[10], "0");
}

#[test]
fn leap_day_is_a_valid_search_date() {
    let session = logged_in();
    let res = session.search("SINCE 29-Feb-2020", &inbox()).unwrap();
    assert_eq!(res.len(), 10);
}

#[test]
fn empty_folder_has_no_messages() {
    let session = logged_in();
    let empty: Vec<MailEntry> = Vec::new();
    assert_eq!(
        session.fetch_seq("1 (UID)", &empty).unwrap_err(),
        Error::NoSuchMessage
    );
    assert_eq!(session.fetch_uid("5 (UID)", &empty).unwrap(), Vec::<String>::new());
    assert_eq!(
        session.search("SINCE 04-Dec-2021", &empty).unwrap(),
        Vec::<String>::new()
    );
}

#[test]
fn oversized_selector_numbers_are_refused() {
    let session = logged_in();
    assert_eq!(
        session.fetch_seq("18446744073709551616 (UID)", &inbox()).unwrap_err(),
        Error::BadSelector
    );
}

#[test]
fn duplicate_selector_values_pick_one_entry() {
    let session = logged_in();
    let res = session.fetch_seq("2,2 (UID)", &inbox()).unwrap();
    assert_eq!(res, vec!["2 FETCH (UID 16376668015)\r\n"]);
}

#[test]
fn login_stores_the_local_part() {
    let mut session = UserSession::new();
    assert!(!session.authenticated);
    let ok = session.authenticate("\"test@ashdown.scot\" tset");
    assert!(ok);
    assert!(session.authenticated);
    assert_eq!(session.username.as_deref(), Some("test"));
    assert_eq!(session.email.as_deref(), Some("test@ashdown.scot"));
}

#[test]
fn login_without_two_tokens_fails() {
    let mut session = UserSession::new();
    let ok = session.authenticate("loneword");
    assert!(!ok);
    assert!(!session.authenticated);
}

#[test]
fn count_emails_needs_a_user() {
    let mut session = UserSession::new();
    assert_eq!(session.count_emails(&inbox()).unwrap_err(), Error::FolderLookup);
    session.authenticate("\"test@ashdown.scot\" tset");
    session.count_emails(&inbox()).unwrap();
    assert_eq!(session.mail_count, 10);
}

#[test]
fn copy_is_not_implemented() {
    let session = logged_in();
    assert_eq!(session.copy("anything").unwrap_err(), Error::IMAPCopyErr);
}

#[test]
fn list_resolves_folder_arguments() {
    let session = logged_in();
    let folders = vec!["INBOX".to_owned(), "SENT".to_owned()];
    assert_eq!(session.list("LIST \"\" \"INBOX\"", &folders).unwrap(), vec!["INBOX"]);
    assert_eq!(
        session.list("LIST \"\" \"*\"", &folders).unwrap(),
        vec!["INBOX", "SENT"]
    );
    assert_eq!(
        session.list("LIST \"\" \"%\"", &folders).unwrap(),
        vec!["INBOX", "SENT"]
    );
    assert_eq!(session.list("LIST \"\" \"\"", &folders).unwrap(), vec!["\"\""]);
    assert_eq!(
        session.list("LIST \"\" \"NOSUCH\"", &folders).unwrap(),
        Vec::<String>::new()
    );
}
