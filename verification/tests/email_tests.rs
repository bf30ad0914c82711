//! Header extraction and INTERNALDATE rendering over two known
//! message fixtures: one with display names on its address headers,
//! one without.
use imap_core::Email;
use imap_core::Error;

fn no_display_names() -> &'static str {
    "From: adam.bar@foo.com\r\n\
     To: adam.test@example.scot\r\n\
     Subject: Testing Email\r\n\
     Date: Tue, 23 Nov 2021 16:56:32 +0000\r\n\
     \r\n\
     This is a testing email.\r\n"
}

fn display_names() -> &'static str {
    "From: Adam the Rusty <adam.bar@foo.com>\r\n\
     To: Adam Test <adam.test@example.scot>\r\n\
     Subject: Testing Email\r\n\
     Date: Tue, 23 Nov 2021 16:56:32 +0000\r\n\
     \r\n\
     This is a testing email.\r\n"
}

// 2021-11-23 11:26:52 UTC
fn fixture_ts() -> i64 {
    1637666812
}

#[test]
fn test_internal_date() {
    let email = Email::new("1", "1", no_display_names(), fixture_ts());
    let date = email.internal_date().unwrap();
    assert_eq!(date, "2021-Nov-23 11:26:52 +0000");
}

#[test]
fn test_to_header_displayname() {
    let email = Email::new("1", "1", display_names(), fixture_ts());
    let (user, domain, display_name) = email.to_header().expect("Failed to Header");

    assert_eq!(user, "adam.test");
    assert_eq!(domain, "example.scot");
    assert_eq!(display_name, "Adam Test");
}

#[test]
fn test_to_header_no_displayname() {
    let email = Email::new("1", "1", no_display_names(), fixture_ts());
    let (user, domain, display_name) = email.to_header().expect("Failed to Header");

    assert_eq!(user, "adam.test");
    assert_eq!(domain, "example.scot");
    assert_eq!(display_name, "NIL");
}

#[test]
fn email_parse_from_no_displaynames() {
    let parser = Email::new("1", "1", no_display_names(), fixture_ts());
    let (user, domain, display) = parser.from_header().unwrap();
    assert_eq!(user, "adam.bar", "User is wrong");
    assert_eq!(domain, "foo.com", "Domain is wrong");
    assert_eq!(display, "NIL", "Display Name is wrong");
}

#[test]
fn email_parse_from_displaynames() {
    let parser = Email::new("1", "1", display_names(), fixture_ts());
    let (user, domain, display) = parser.from_header().unwrap();
    assert_eq!(user, "adam.bar", "User is wrong");
    assert_eq!(domain, "foo.com", "Domain is wrong");
    assert_eq!(display, "Adam the Rusty", "Display Name is wrong");
}

#[test]
fn email_parse_to_displaynames() {
    let parser = Email::new("1", "1", display_names(), fixture_ts());
    let (user, domain, display) = parser.to_header().unwrap();
    assert_eq!(user, "adam.test", "User is wrong");
    assert_eq!(domain, "example.scot", "Domain is wrong");
    assert_eq!(display, "Adam Test", "Display Name is wrong");
}

#[test]
fn email_parse_to_no_displaynames() {
    let parser = Email::new("1", "1", no_display_names(), fixture_ts());
    let (user, domain, display) = parser.to_header().unwrap();
    assert_eq!(user, "adam.test", "User is wrong");
    assert_eq!(domain, "example.scot", "Domain is wrong");
    assert_eq!(display, "NIL", "Display Name is wrong");
}

#[test]
fn email_parse_date() {
    let parser = Email::new("1", "1", no_display_names(), fixture_ts());
    let date = parser.date_header().unwrap();
    assert_eq!(date, "Tue, 23 Nov 2021 16:56:32 +0000", "Date is wrong");
}

#[test]
fn email_parse_subject() {
    let parser = Email::new("1", "1", no_display_names(), fixture_ts());
    let subject = parser.subject_header().unwrap();
    assert_eq!(subject, "Testing Email");
}

#[test]
fn header_field_lookup_ignores_case() {
    let email = Email::new("1", "1", "tO: a@b\r\nsUBJECT: x\r\n", 0);
    let (user, domain, display) = email.to_header().unwrap();
    assert_eq!(user, "a");
    assert_eq!(domain, "b");
    assert_eq!(display, "NIL");
    assert_eq!(email.subject_header().unwrap(), "x");
}

#[test]
fn missing_to_field_is_reported() {
    let email = Email::new("1", "1", "Subject: hello\r\n", 0);
    assert_eq!(email.to_header().unwrap_err(), Error::ToFieldMissing);
}

#[test]
fn missing_from_field_is_reported() {
    let email = Email::new("1", "1", "Subject: hello\r\n", 0);
    assert_eq!(email.from_header().unwrap_err(), Error::FromFieldMissing);
}

#[test]
fn missing_date_and_subject_are_reported() {
    let email = Email::new("1", "1", "To: a@b\r\n", 0);
    assert_eq!(email.date_header().unwrap_err(), Error::DateFieldMissing);
    assert_eq!(email.subject_header().unwrap_err(), Error::SubjectFieldMissing);
}

#[test]
fn address_without_at_sign_is_invalid() {
    let email = Email::new("1", "1", "To: nonsense\r\nFrom: rubbish\r\n", 0);
    assert_eq!(email.to_header().unwrap_err(), Error::InvalidToField);
    assert_eq!(email.from_header().unwrap_err(), Error::InvalidFromField);
}

#[test]
fn internal_date_rejects_times_it_cannot_format() {
    let email = Email::new("1", "1", "To: a@b\r\n", -5);
    assert_eq!(email.internal_date().unwrap_err(), Error::TimeDate);
}

#[test]
fn fetch_uid_line_is_exact() {
    let email = Email::new("161", "4", "To: a@b\r\n", 0);
    assert_eq!(
        email.format_response("(UID)").unwrap(),
        "4 FETCH (UID 161)\r\n"
    );
    assert_eq!(
        email.format_response("(UID FLAGS)").unwrap(),
        "4 FETCH (UID 161 FLAGS (\\Seen))\r\n"
    );
}

#[test]
fn body_fetch_literal_counts_bytes_plus_crlf() {
    // 10 bytes of content: the literal marker must say 12, the size 10,
    // and the content must stand between the marker and INTERNALDATE.
    let contents = "0123456789";
    let email = Email::new("7", "2", contents, 1637666812);
    let line = email
        .format_response("(UID FLAGS RFC822.SIZE BODY.PEEK[] INTERNALDATE)")
        .unwrap();
    assert_eq!(
        line,
        "2 FETCH (UID 7 FLAGS (\\Recent) RFC822.SIZE 10 BODY[] {12}\r\n\
         0123456789\r\n INTERNALDATE \"2021-Nov-23 11:26:52 +0000\")\r\n"
    );
}

#[test]
fn unknown_fetch_attributes_are_refused() {
    let email = Email::new("1", "1", "To: a@b\r\n", 0);
    assert_eq!(
        email.format_response("(BODYSTRUCTURE)").unwrap_err(),
        Error::UnsupportedFetch
    );
}
