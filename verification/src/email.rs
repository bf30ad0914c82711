//! One message held in memory: raw contents, addressing identifiers
//! and creation time, with the header extractor and the FETCH
//! response renderers.
//!
//! Header extraction scans the raw text for the first line that opens,
//! without regard to case, with a given field name and colon.  Address
//! fields are then cleaned of carriage returns and angle brackets and
//! split on the last blank: the trailing token is the address, what
//! stands before it is the display name (`NIL` when nothing does), and
//! the address parts at its first `@`.
use vstd::prelude::*;

use crate::dates::MAX_FORMAT_TS;
use crate::dates::format_internal_date;
use crate::dates::internal_date_of;
use crate::error::Error;
use crate::error::IMAPResult;
use crate::strutil::find_from;
use crate::strutil::lemma_find_from_bounds;
use crate::strutil::lemma_rfind_bounds;
use crate::strutil::lc;
use crate::strutil::lower_seq;
use crate::strutil::lower_char;
use crate::strutil::dec_of;
use crate::strutil::rfind;
use crate::strutil::rfind_char;
use crate::strutil::find_char_from;
use crate::strutil::strip_chars;
use crate::strutil::strip_spec;
use crate::strutil::str_eq;
use crate::strutil::u64_to_string;
use vstd::utf8::encode_utf8;

verus! {

/// Whether position `i` opens a line of `s`.
pub open spec fn is_line_start(s: Seq<char>, i: int) -> bool {
    i == 0 || s[i - 1] == '\n'
}

/// Whether the line opening at `i` begins with `name` (the field name
/// with its colon), without regard to case.
pub open spec fn field_at(s: Seq<char>, i: int, name: Seq<char>) -> bool {
    is_line_start(s, i) && i + name.len() <= s.len() && lower_seq(s.subrange(i, i + name.len()))
        == lower_seq(name)
}

/// Position of the first line of `s` at or after `i` that opens with
/// `name`.
pub open spec fn find_field_from(s: Seq<char>, name: Seq<char>, i: int) -> Option<int>
    decreases s.len() - i,
{
    if name.len() == 0 || i < 0 || i > s.len() - name.len() {
        None
    } else if field_at(s, i, name) {
        Some(i)
    } else {
        find_field_from(s, name, i + 1)
    }
}

pub proof fn lemma_find_field_bounds(s: Seq<char>, name: Seq<char>, i: int)
    ensures
        find_field_from(s, name, i) is Some ==> {
            let j = find_field_from(s, name, i)->0;
            i <= j && j + name.len() <= s.len() && field_at(s, j, name)
        },
    decreases s.len() - i,
{
    if !(name.len() == 0 || i < 0 || i > s.len() - name.len()) && !field_at(s, i, name) {
        lemma_find_field_bounds(s, name, i + 1);
    }
}

/// End of the line that position `i` lies on: the next `'\n'`, or the
/// end of the text.
pub open spec fn line_end(s: Seq<char>, i: int) -> int {
    match find_from(s, '\n', i) {
        None => s.len() as int,
        Some(j) => j,
    }
}

/// The raw value of the field line opening at `j`: the rest of the
/// line after the field name, less one leading blank if one stands
/// there.
pub open spec fn value_at(s: Seq<char>, name: Seq<char>, j: int) -> Seq<char> {
    let v = s.subrange(j + name.len(), line_end(s, j + name.len()));
    if v.len() > 0 && v[0] == ' ' {
        v.subrange(1, v.len() as int)
    } else {
        v
    }
}

/// The raw value of the first line of `s` that opens with `name`.
pub open spec fn header_value_spec(s: Seq<char>, name: Seq<char>) -> Option<Seq<char>> {
    match find_field_from(s, name, 0) {
        None => None,
        Some(j) => Some(value_at(s, name, j)),
    }
}

/// Whether the line opening at `i` begins with `name`, without regard
/// to case.
fn field_at_exec(s: &str, len: usize, i: usize, name: &str) -> (r: bool)
    requires
        len == s@.len(),
        i <= len,
    ensures
        r == field_at(s@, i as int, name@),
{
    let n = name.unicode_len();
    if i == 0 || s.get_char(i - 1) == '\n' {
        if n > len - i {
            assert(!field_at(s@, i as int, name@));
            return false;
        }
        let mut k: usize = 0;
        while k < n
            invariant
                k <= n,
                i + n <= len,
                len == s@.len(),
                n == name@.len(),
                is_line_start(s@, i as int),
                forall|t: int| 0 <= t < k ==> lc(s@[i + t]) == lc(name@[t]),
            decreases n - k,
        {
            if lower_char(s.get_char(i + k)) != lower_char(name.get_char(k)) {
                assert(lower_seq(s@.subrange(i as int, i + name@.len()))[k as int] != lower_seq(
                    name@,
                )[k as int]);
                return false;
            }
            k += 1;
        }
        assert(lower_seq(s@.subrange(i as int, i + name@.len())) =~= lower_seq(name@));
        true
    } else {
        assert(!is_line_start(s@, i as int));
        false
    }
}

/// Position of the first line of `s` that opens with `name`.
fn find_field(s: &str, name: &str) -> (r: Option<usize>)
    ensures
        r is Some <==> find_field_from(s@, name@, 0) is Some,
        r is Some ==> r->0 == find_field_from(s@, name@, 0)->0,
{
    let len = s.unicode_len();
    let n = name.unicode_len();
    if n == 0 || n > len {
        return None;
    }
    let mut i: usize = 0;
    while i <= len - n
        invariant
            1 <= n <= len,
            i <= len - n + 1,
            len == s@.len(),
            n == name@.len(),
            find_field_from(s@, name@, 0) == find_field_from(s@, name@, i as int),
        decreases len - i,
    {
        if field_at_exec(s, len, i, name) {
            assert(find_field_from(s@, name@, i as int) == Some(i as int));
            return Some(i);
        }
        assert(find_field_from(s@, name@, i as int) == find_field_from(s@, name@, i + 1));
        i += 1;
    }
    None
}

/// The raw value of the first line of `s` that opens with `name`.
pub fn header_value(s: &str, name: &str) -> (r: Option<String>)
    ensures
        r is Some <==> header_value_spec(s@, name@) is Some,
        r is Some ==> r->0@ == header_value_spec(s@, name@)->0,
{
    let len = s.unicode_len();
    match find_field(s, name) {
        None => None,
        Some(j) => {
            proof {
                lemma_find_field_bounds(s@, name@, 0);
            }
            let n = name.unicode_len();
            let vstart = j + n;
            let vend = match find_char_from(s, '\n', vstart) {
                None => len,
                Some(e) => {
                    proof {
                        lemma_find_from_bounds(s@, '\n', vstart as int);
                    }
                    e
                },
            };
            let v = s.substring_char(vstart, vend);
            if v.unicode_len() > 0 && v.get_char(0) == ' ' {
                let w = v.substring_char(1, v.unicode_len());
                Some(w.to_owned())
            } else {
                Some(v.to_owned())
            }
        },
    }
}

/// An address field value cleaned of carriage returns and angle
/// brackets.
pub open spec fn clean_addr(v: Seq<char>) -> Seq<char> {
    strip_spec(v, "\r<>"@)
}

/// The display name encoded in a cleaned address value: everything
/// before the last blank, or `NIL` when no blank splits the value.
pub open spec fn display_of(v: Seq<char>) -> Seq<char> {
    match rfind(v, ' ') {
        None => "NIL"@,
        Some(j) => v.subrange(0, j),
    }
}

/// The address token of a cleaned address value: everything after the
/// last blank, or the whole value.
pub open spec fn addr_of(v: Seq<char>) -> Seq<char> {
    match rfind(v, ' ') {
        None => v,
        Some(j) => v.subrange(j + 1, v.len() as int),
    }
}

/// Whether the address token holds an `@`.
pub open spec fn addr_has_at(v: Seq<char>) -> bool {
    find_from(addr_of(v), '@', 0) is Some
}

/// The local part of the address token: everything before its first `@`.
pub open spec fn user_of(v: Seq<char>) -> Seq<char> {
    addr_of(v).subrange(0, find_from(addr_of(v), '@', 0)->0)
}

/// The domain of the address token: everything after its first `@`.
pub open spec fn domain_of(v: Seq<char>) -> Seq<char> {
    addr_of(v).subrange(find_from(addr_of(v), '@', 0)->0 + 1, addr_of(v).len() as int)
}

/// Split a cleaned address value into local part, domain and display
/// name.
fn split_address(cleaned: &str) -> (r: Option<(String, String, String)>)
    ensures
        r is Some <==> addr_has_at(cleaned@),
        r is Some ==> {
            let (user, domain, display) = r->0;
            user@ == user_of(cleaned@) && domain@ == domain_of(cleaned@) && display@ == display_of(
                cleaned@,
            )
        },
{
    let len = cleaned.unicode_len();
    let display: String;
    let addr: &str;
    match rfind_char(cleaned, ' ') {
        None => {
            display = "NIL".to_owned();
            addr = cleaned;
            assert(addr@ == addr_of(cleaned@));
        },
        Some(j) => {
            proof {
                lemma_rfind_bounds(cleaned@, ' ');
            }
            display = cleaned.substring_char(0, j).to_owned();
            addr = cleaned.substring_char(j + 1, len);
            assert(addr@ == addr_of(cleaned@));
        },
    }
    let alen = addr.unicode_len();
    match find_char_from(addr, '@', 0) {
        None => None,
        Some(k) => {
            proof {
                lemma_find_from_bounds(addr@, '@', 0);
            }
            let user = addr.substring_char(0, k).to_owned();
            let domain = addr.substring_char(k + 1, alen).to_owned();
            Some((user, domain, display))
        },
    }
}

/// One message read from the store: its derived UID and snapshot
/// sequence number (both already rendered in decimal), its raw
/// contents, and the file's creation time in seconds since the epoch.
#[derive(Debug)]
pub struct Email {
    pub uid: String,
    pub seq: String,
    pub email_contents: String,
    pub created_ts: i64,
}

impl Email {
    /// The raw contents fit in memory with room for the two-byte
    /// literal terminator; true of any really held message.
    pub open spec fn wf(&self) -> bool {
        encode_utf8(self.email_contents@).len() + 2 <= usize::MAX
    }

    /// Build a message value from plain parts.
    pub fn new(uid: &str, seq: &str, contents: &str, created_ts: i64) -> (r: Email)
        ensures
            r.uid@ == uid@,
            r.seq@ == seq@,
            r.email_contents@ == contents@,
            r.created_ts == created_ts,
    {
        Email {
            uid: uid.to_owned(),
            seq: seq.to_owned(),
            email_contents: contents.to_owned(),
            created_ts,
        }
    }

    /// Extract local part, domain and display name from the first
    /// `To:` header line.
    pub fn to_header(&self) -> (r: IMAPResult<(String, String, String)>)
        ensures
            r is Ok <==> (header_value_spec(self.email_contents@, "To:"@) matches Some(v)
                && addr_has_at(clean_addr(v))),
            header_value_spec(self.email_contents@, "To:"@) is None <==> r == Err::<
                (String, String, String),
                Error,
            >(Error::ToFieldMissing),
            (header_value_spec(self.email_contents@, "To:"@) matches Some(v) && !addr_has_at(
                clean_addr(v),
            )) <==> r == Err::<(String, String, String), Error>(Error::InvalidToField),
            r is Ok ==> {
                let v = clean_addr(header_value_spec(self.email_contents@, "To:"@)->0);
                r->Ok_0.0@ == user_of(v) && r->Ok_0.1@ == domain_of(v) && r->Ok_0.2@ == display_of(
                    v,
                )
            },
    {
        match header_value(self.email_contents.as_str(), "To:") {
            None => Err(Error::ToFieldMissing),
            Some(v) => {
                let cleaned = strip_chars(v.as_str(), "\r<>");
                match split_address(cleaned.as_str()) {
                    None => Err(Error::InvalidToField),
                    Some(parts) => Ok(parts),
                }
            },
        }
    }

    /// Extract local part, domain and display name from the first
    /// `From:` header line.
    pub fn from_header(&self) -> (r: IMAPResult<(String, String, String)>)
        ensures
            r is Ok <==> (header_value_spec(self.email_contents@, "From:"@) matches Some(v)
                && addr_has_at(clean_addr(v))),
            header_value_spec(self.email_contents@, "From:"@) is None <==> r == Err::<
                (String, String, String),
                Error,
            >(Error::FromFieldMissing),
            (header_value_spec(self.email_contents@, "From:"@) matches Some(v) && !addr_has_at(
                clean_addr(v),
            )) <==> r == Err::<(String, String, String), Error>(Error::InvalidFromField),
            r is Ok ==> {
                let v = clean_addr(header_value_spec(self.email_contents@, "From:"@)->0);
                r->Ok_0.0@ == user_of(v) && r->Ok_0.1@ == domain_of(v) && r->Ok_0.2@ == display_of(
                    v,
                )
            },
    {
        match header_value(self.email_contents.as_str(), "From:") {
            None => Err(Error::FromFieldMissing),
            Some(v) => {
                let cleaned = strip_chars(v.as_str(), "\r<>");
                match split_address(cleaned.as_str()) {
                    None => Err(Error::InvalidFromField),
                    Some(parts) => Ok(parts),
                }
            },
        }
    }

    /// The raw value of the first `Date:` header line, carriage
    /// returns stripped, in the form the message carries it.
    pub fn date_header(&self) -> (r: IMAPResult<String>)
        ensures
            r is Ok <==> header_value_spec(self.email_contents@, "Date:"@) is Some,
            r is Ok ==> r->Ok_0@ == strip_spec(
                header_value_spec(self.email_contents@, "Date:"@)->0,
                "\r"@,
            ),
            r is Err ==> r->Err_0 == Error::DateFieldMissing,
    {
        match header_value(self.email_contents.as_str(), "Date:") {
            None => Err(Error::DateFieldMissing),
            Some(v) => Ok(strip_chars(v.as_str(), "\r")),
        }
    }

    /// The raw value of the first `Subject:` header line, carriage
    /// returns stripped.
    pub fn subject_header(&self) -> (r: IMAPResult<String>)
        ensures
            r is Ok <==> header_value_spec(self.email_contents@, "Subject:"@) is Some,
            r is Ok ==> r->Ok_0@ == strip_spec(
                header_value_spec(self.email_contents@, "Subject:"@)->0,
                "\r"@,
            ),
            r is Err ==> r->Err_0 == Error::SubjectFieldMissing,
    {
        match header_value(self.email_contents.as_str(), "Subject:") {
            None => Err(Error::SubjectFieldMissing),
            Some(v) => Ok(strip_chars(v.as_str(), "\r")),
        }
    }

    /// The message's creation time in the INTERNALDATE rendering.
    pub fn internal_date(&self) -> (r: IMAPResult<String>)
        ensures
            r is Ok <==> 0 <= self.created_ts <= MAX_FORMAT_TS,
            r is Ok ==> r->Ok_0@ == internal_date_of(self.created_ts as int),
            r is Err ==> r->Err_0 == Error::TimeDate,
    {
        if 0 <= self.created_ts && self.created_ts <= MAX_FORMAT_TS {
            Ok(format_internal_date(self.created_ts))
        } else {
            Err(Error::TimeDate)
        }
    }

    /// Render the response for the requested attribute set.
    pub fn format_response(&self, args: &str) -> (r: IMAPResult<String>)
        requires
            self.wf(),
        ensures
            args@ == "(UID)"@ ==> r == Ok::<String, Error>(r->Ok_0) && r->Ok_0@ == uid_fetch_line(
                self.seq@,
                self.uid@,
            ),
            args@ == "(UID FLAGS)"@ ==> r == Ok::<String, Error>(r->Ok_0) && r->Ok_0@
                == uid_flags_line(self.seq@, self.uid@),
            args@ == "(UID FLAGS RFC822.SIZE BODY.PEEK[] INTERNALDATE)"@ ==> {
                &&& r is Ok <==> 0 <= self.created_ts <= MAX_FORMAT_TS
                &&& r is Ok ==> r->Ok_0@ == body_fetch_line(
                    self.seq@,
                    self.uid@,
                    self.email_contents@,
                    internal_date_of(self.created_ts as int),
                )
                &&& r is Err ==> r->Err_0 == Error::TimeDate
            },
            args@ != "(UID)"@ && args@ != "(UID FLAGS)"@ && args@
                != "(UID FLAGS RFC822.SIZE BODY.PEEK[] INTERNALDATE)"@ ==> r == Err::<
                String,
                Error,
            >(Error::UnsupportedFetch),
    {
        proof {
            reveal_strlit("(UID)");
            reveal_strlit("(UID FLAGS)");
            reveal_strlit("(UID FLAGS RFC822.SIZE BODY.PEEK[] INTERNALDATE)");
            assert("(UID)"@.len() == 5);
            assert("(UID FLAGS)"@.len() == 11);
            assert("(UID FLAGS RFC822.SIZE BODY.PEEK[] INTERNALDATE)"@.len() == 48);
        }
        if str_eq(args, "(UID)") {
            Ok(self.fetch_uid())
        } else if str_eq(args, "(UID FLAGS)") {
            Ok(self.fetch_uid_flags())
        } else if str_eq(args, "(UID FLAGS RFC822.SIZE BODY.PEEK[] INTERNALDATE)") {
            self.fetch_uid_flags_RFC822_bodypeek()
        } else {
            Err(Error::UnsupportedFetch)
        }
    }

    /// Render the `(UID)` response line.
    pub fn fetch_uid(&self) -> (r: String)
        ensures
            r@ == uid_fetch_line(self.seq@, self.uid@),
    {
        let mut out = self.seq.clone();
        out.append(" FETCH (UID ");
        out.append(self.uid.as_str());
        out.append(")\r\n");
        assert(out@ =~= uid_fetch_line(self.seq@, self.uid@));
        out
    }

    /// Render the `(UID FLAGS)` response line.
    pub fn fetch_uid_flags(&self) -> (r: String)
        ensures
            r@ == uid_flags_line(self.seq@, self.uid@),
    {
        let mut out = self.seq.clone();
        out.append(" FETCH (UID ");
        out.append(self.uid.as_str());
        out.append(" FLAGS (\\Seen))\r\n");
        assert(out@ =~= uid_flags_line(self.seq@, self.uid@));
        out
    }

    /// Render the full-body response: flags, size, the byte-counted
    /// literal holding the raw message, and INTERNALDATE.  The literal
    /// length counts the message bytes plus the closing CRLF.
    #[allow(non_snake_case)]
    pub fn fetch_uid_flags_RFC822_bodypeek(&self) -> (r: IMAPResult<String>)
        requires
            self.wf(),
        ensures
            r is Ok <==> 0 <= self.created_ts <= MAX_FORMAT_TS,
            r is Ok ==> r->Ok_0@ == body_fetch_line(
                self.seq@,
                self.uid@,
                self.email_contents@,
                internal_date_of(self.created_ts as int),
            ),
            r is Err ==> r->Err_0 == Error::TimeDate,
    {
        let idate = self.internal_date()?;
        let nbytes: u64 = self.email_contents.as_str().len() as u64;
        let mut out = self.seq.clone();
        out.append(" FETCH (UID ");
        out.append(self.uid.as_str());
        out.append(" FLAGS (\\Recent) RFC822.SIZE ");
        let size_s = u64_to_string(nbytes);
        out.append(size_s.as_str());
        out.append(" BODY[] {");
        let lit_s = u64_to_string(nbytes + 2);
        out.append(lit_s.as_str());
        out.append("}\r\n");
        out.append(self.email_contents.as_str());
        out.append("\r\n INTERNALDATE \"");
        out.append(idate.as_str());
        out.append("\")\r\n");
        assert(out@ =~= body_fetch_line(
            self.seq@,
            self.uid@,
            self.email_contents@,
            internal_date_of(self.created_ts as int),
        ));
        Ok(out)
    }
}

/// The `(UID)` FETCH response line.
pub open spec fn uid_fetch_line(seq: Seq<char>, uid: Seq<char>) -> Seq<char> {
    seq + " FETCH (UID "@ + uid + ")\r\n"@
}

/// The `(UID FLAGS)` FETCH response line.
pub open spec fn uid_flags_line(seq: Seq<char>, uid: Seq<char>) -> Seq<char> {
    seq + " FETCH (UID "@ + uid + " FLAGS (\\Seen))\r\n"@
}

/// The full-body FETCH response: the literal counts the message's
/// bytes plus the CRLF that closes the literal on the wire.
pub open spec fn body_fetch_line(
    seq: Seq<char>,
    uid: Seq<char>,
    contents: Seq<char>,
    idate: Seq<char>,
) -> Seq<char> {
    seq + " FETCH (UID "@ + uid + " FLAGS (\\Recent) RFC822.SIZE "@ + dec_of(
        encode_utf8(contents).len(),
    ) + " BODY[] {"@ + dec_of((encode_utf8(contents).len() + 2) as nat) + "}\r\n"@ + contents
        + "\r\n INTERNALDATE \""@ + idate + "\")\r\n"@
}

} // verus!
