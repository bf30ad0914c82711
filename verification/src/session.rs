//! The per-connection session and the mailbox addressing scheme:
//! UID derivation from message filenames, selector resolution over a
//! folder snapshot, the SEARCH filter and the FETCH drivers.
//!
//! A folder snapshot is handed in as a vector of [`MailEntry`] values,
//! one per message file, in a fixed enumeration order; sequence
//! numbers are the 1-based positions within that vector.  The caller
//! enumerates the directory afresh for every command that needs one
//! and is expected to sort the entries by filename so the order is
//! reproducible.
use vstd::prelude::*;

use crate::dates::MAX_FORMAT_TS;
use crate::dates::SECS_PER_DAY;
use crate::dates::epoch_days;
use crate::dates::internal_date_of;
use crate::dates::lemma_epoch_days_nonneg;
use crate::dates::month_length;
use crate::dates::month_number;
use crate::dates::month_of;
use crate::dates::valid_date;
use crate::dates::ymd_midnight_epoch;
use crate::email::Email;
use crate::email::body_fetch_line;
use crate::email::uid_fetch_line;
use crate::email::uid_flags_line;
use crate::error::Error;
use crate::error::IMAPResult;
use crate::strutil::all_digits;
use crate::strutil::dec_of;
use crate::strutil::dec_val;
use crate::strutil::digit_val;
use crate::strutil::find_from;
use crate::strutil::find_char_from;
use crate::strutil::is_digit;
use crate::strutil::last_token;
use crate::strutil::last_token_spec;
use crate::strutil::lemma_dec_val_nonneg;
use crate::strutil::lemma_find_from_bounds;
use crate::strutil::lemma_rfind_bounds;
use crate::strutil::parse_u64;
use crate::strutil::rfind;
use crate::strutil::rfind_char;
use crate::strutil::split_on_char;
use crate::strutil::split_spec;
use crate::strutil::str_eq;
use crate::strutil::strip_chars;
use crate::strutil::strip_spec;
use crate::strutil::u64_to_string;
use crate::strutil::upper_seq;
use crate::strutil::to_upper;
use vstd::utf8::encode_utf8;

verus! {

/// Scale factor from the fractional timestamp a filename encodes to
/// the message's UID.
pub const UID_SCALE: u64 = 10;

/// The suffix marker a message filename carries after its encoded
/// timestamp.
pub const UID_SUFFIX: &'static str = "s.eml";

/// One entry of a folder snapshot: the message file's name, its
/// creation time in seconds since the epoch, and its raw contents.
#[derive(Debug)]
pub struct MailEntry {
    pub name: String,
    pub created_ts: i64,
    pub contents: String,
}

/// The mathematical image of a [`MailEntry`].
pub ghost struct EntryV {
    pub name: Seq<char>,
    pub created_ts: int,
    pub contents: Seq<char>,
}

impl DeepView for MailEntry {
    type V = EntryV;

    open spec fn deep_view(&self) -> EntryV {
        EntryV { name: self.name@, created_ts: self.created_ts as int, contents: self.contents@ }
    }
}

impl MailEntry {
    /// The raw contents fit in memory with room for the two-byte
    /// literal terminator; true of any really held message.
    pub open spec fn wf(&self) -> bool {
        encode_utf8(self.contents@).len() + 2 <= usize::MAX
    }

    /// Build a snapshot entry from plain parts.
    pub fn new(name: &str, created_ts: i64, contents: &str) -> (r: MailEntry)
        ensures
            r.name@ == name@,
            r.created_ts == created_ts,
            r.contents@ == contents@,
    {
        MailEntry { name: name.to_owned(), created_ts, contents: contents.to_owned() }
    }
}

pub open spec fn snapshot_wf(snap: Seq<MailEntry>) -> bool {
    forall|i: int| 0 <= i < snap.len() ==> (#[trigger] snap[i]).wf()
}

/// The timestamp part of a filename: everything before the suffix
/// marker, which the name must end with.
pub open spec fn seed_part(name: Seq<char>) -> Seq<char> {
    name.subrange(0, name.len() - 5)
}

/// The whole-seconds digits of the encoded timestamp.
pub open spec fn seed_int_part(name: Seq<char>) -> Seq<char> {
    match find_from(seed_part(name), '.', 0) {
        None => seed_part(name),
        Some(j) => seed_part(name).subrange(0, j),
    }
}

/// The fractional digits of the encoded timestamp, possibly empty.
pub open spec fn seed_frac_part(name: Seq<char>) -> Seq<char> {
    match find_from(seed_part(name), '.', 0) {
        None => Seq::empty(),
        Some(j) => seed_part(name).subrange(j + 1, seed_part(name).len() as int),
    }
}

/// Whether a filename encodes a timestamp: digits, an optional dot and
/// further digits, then the suffix marker.
pub open spec fn valid_uid_name(name: Seq<char>) -> bool {
    &&& name.len() >= 5
    &&& name.subrange(name.len() - 5, name.len() as int) == "s.eml"@
    &&& seed_int_part(name).len() > 0
    &&& all_digits(seed_int_part(name))
    &&& all_digits(seed_frac_part(name))
}

/// The first fractional digit of the encoded timestamp, or 0.
pub open spec fn seed_first_frac(name: Seq<char>) -> int {
    if seed_frac_part(name).len() > 0 {
        digit_val(seed_frac_part(name)[0])
    } else {
        0
    }
}

/// The UID a filename derives: the encoded fractional timestamp,
/// scaled by [`UID_SCALE`] and truncated.
pub open spec fn uid_of(name: Seq<char>) -> int {
    dec_val(seed_int_part(name)) * (UID_SCALE as int) + seed_first_frac(name)
}

/// Whether the timestamp a filename encodes lies strictly after the
/// instant `t` (in whole seconds).
pub open spec fn seed_after(name: Seq<char>, t: int) -> bool {
    dec_val(seed_int_part(name)) > t || (dec_val(seed_int_part(name)) == t && exists|k: int|
        0 <= k < seed_frac_part(name).len() && digit_val(seed_frac_part(name)[k]) > 0)
}

/// Whether some fractional digit of the encoded timestamp is not zero.
pub open spec fn seed_frac_nonzero(name: Seq<char>) -> bool {
    exists|k: int| 0 <= k < seed_frac_part(name).len() && digit_val(seed_frac_part(name)[k]) > 0
}

/// Parse the timestamp a filename encodes: the whole seconds, the
/// first fractional digit, and whether any fractional digit is not
/// zero.
fn parse_seed(name: &str) -> (r: IMAPResult<(u64, u64, bool)>)
    ensures
        r is Ok <==> valid_uid_name(name@) && dec_val(seed_int_part(name@)) <= u64::MAX,
        r is Ok ==> {
            &&& r->Ok_0.0 == dec_val(seed_int_part(name@))
            &&& r->Ok_0.1 == seed_first_frac(name@)
            &&& r->Ok_0.2 == seed_frac_nonzero(name@)
        },
        r is Err ==> r->Err_0 == Error::BadMessageFile,
{
    let len = name.unicode_len();
    if len < 5 {
        return Err(Error::BadMessageFile);
    }
    let tail = name.substring_char(len - 5, len);
    if !str_eq(tail, UID_SUFFIX) {
        return Err(Error::BadMessageFile);
    }
    let seed = name.substring_char(0, len - 5);
    assert(seed@ == seed_part(name@));
    let slen = seed.unicode_len();
    let int_part: &str;
    let frac_part: &str;
    match find_char_from(seed, '.', 0) {
        None => {
            int_part = seed;
            frac_part = "";
            proof {
                reveal_strlit("");
                assert(frac_part@ =~= seed_frac_part(name@));
            }
        },
        Some(j) => {
            proof {
                lemma_find_from_bounds(seed@, '.', 0);
            }
            int_part = seed.substring_char(0, j);
            frac_part = seed.substring_char(j + 1, slen);
        },
    }
    assert(int_part@ == seed_int_part(name@));
    assert(frac_part@ == seed_frac_part(name@));
    let whole: u64 = match parse_u64(int_part) {
        None => {
            return Err(Error::BadMessageFile);
        },
        Some(w) => w,
    };
    // every fractional character must be a digit; note any that is not 0
    let flen = frac_part.unicode_len();
    let mut nonzero = false;
    let mut k: usize = 0;
    while k < flen
        invariant
            k <= flen,
            flen == frac_part@.len(),
            frac_part@ == seed_frac_part(name@),
            forall|t: int| 0 <= t < k ==> is_digit(#[trigger] frac_part@[t]),
            nonzero == exists|t: int|
                0 <= t < k && digit_val(#[trigger] seed_frac_part(name@)[t]) > 0,
        decreases flen - k,
    {
        let c = frac_part.get_char(k);
        let dv: u64 = match c {
            '0' => 0,
            '1' => 1,
            '2' => 2,
            '3' => 3,
            '4' => 4,
            '5' => 5,
            '6' => 6,
            '7' => 7,
            '8' => 8,
            '9' => 9,
            _ => 10,
        };
        if dv == 10 {
            assert(!is_digit(frac_part@[k as int]));
            return Err(Error::BadMessageFile);
        }
        if dv > 0 {
            nonzero = true;
        }
        k += 1;
    }
    let first_frac: u64 = if flen > 0 {
        match frac_part.get_char(0) {
            '0' => 0,
            '1' => 1,
            '2' => 2,
            '3' => 3,
            '4' => 4,
            '5' => 5,
            '6' => 6,
            '7' => 7,
            '8' => 8,
            _ => 9,
        }
    } else {
        0
    };
    assert(first_frac == seed_first_frac(name@));
    Ok((whole, first_frac, nonzero))
}

/// Derive a message's UID from its filename.
pub fn filename_to_uid(name: &str) -> (r: IMAPResult<u64>)
    ensures
        r is Ok <==> valid_uid_name(name@) && uid_of(name@) <= u64::MAX,
        r is Ok ==> r->Ok_0 == uid_of(name@),
        r is Err ==> r->Err_0 == Error::BadMessageFile,
{
    let (whole, first_frac, _nonzero) = match parse_seed(name) {
        Err(e) => {
            proof {
                if valid_uid_name(name@) {
                    lemma_seed_uid_bound(name@);
                }
            }
            return Err(Error::BadMessageFile);
        },
        Ok(p) => p,
    };
    if whole > (u64::MAX - first_frac) / 10 {
        proof {
            lemma_scale_overflow(whole as int, first_frac as int);
        }
        return Err(Error::BadMessageFile);
    }
    proof {
        lemma_scale_fits(whole as int, first_frac as int);
    }
    Ok(whole * 10 + first_frac)
}

proof fn lemma_scale_overflow(w: int, d: int)
    requires
        0 <= d < 10,
        w > (u64::MAX - d) / 10,
    ensures
        w * 10 + d > u64::MAX,
{
    assert(w * 10 + d > u64::MAX) by (nonlinear_arith)
        requires
            0 <= d < 10,
            w > (u64::MAX - d) / 10,
    ;
}

proof fn lemma_scale_fits(w: int, d: int)
    requires
        0 <= d < 10,
        0 <= w <= (u64::MAX - d) / 10,
    ensures
        w * 10 + d <= u64::MAX,
{
    assert(w * 10 + d <= u64::MAX) by (nonlinear_arith)
        requires
            0 <= d < 10,
            0 <= w <= (u64::MAX - d) / 10,
    ;
}

/// When the whole-seconds value does not fit a `u64`, neither does the
/// scaled UID.
proof fn lemma_seed_uid_bound(name: Seq<char>)
    requires
        all_digits(seed_int_part(name)),
        all_digits(seed_frac_part(name)),
    ensures
        dec_val(seed_int_part(name)) > u64::MAX ==> uid_of(name) > u64::MAX,
{
    lemma_dec_val_nonneg(seed_int_part(name));
    if dec_val(seed_int_part(name)) > u64::MAX {
        assert(dec_val(seed_int_part(name)) * 10 >= dec_val(seed_int_part(name)) * 10);
        assert(dec_val(seed_int_part(name)) * 10 > u64::MAX) by (nonlinear_arith)
            requires
                dec_val(seed_int_part(name)) > u64::MAX,
        ;
        assert(uid_of(name) >= dec_val(seed_int_part(name)) * 10);
    }
}

/// The positions a range selector `a:b` resolves to: every position
/// of a snapshot of `n` entries in `[a, b]`, in enumeration order.
pub open spec fn range_positions(a: int, b: int, n: int) -> Seq<int> {
    let lo = if a < 1 {
        1
    } else {
        a
    };
    let hi = if b > n {
        n
    } else {
        b
    };
    if lo > hi {
        Seq::empty()
    } else {
        Seq::new((hi + 1 - lo) as nat, |k: int| lo + k)
    }
}

/// The positions a list selector resolves to: positions the list
/// names, in enumeration order, cut off once as many entries are
/// taken as the list has values.
pub open spec fn list_pos_scan(vals: Seq<int>, n: int, i: int, taken: int) -> Seq<int>
    decreases n + 1 - i,
{
    if i > n || i < 1 || taken >= vals.len() {
        Seq::empty()
    } else if vals.contains(i) {
        seq![i] + list_pos_scan(vals, n, i + 1, taken + 1)
    } else {
        list_pos_scan(vals, n, i + 1, taken)
    }
}

pub open spec fn list_positions(vals: Seq<int>, n: int) -> Seq<int> {
    list_pos_scan(vals, n, 1, 0)
}

/// A list selector never resolves to more positions than it names:
/// the scan stops once as many entries are taken as the list has
/// values.
pub proof fn lemma_list_positions_bound(vals: Seq<int>, n: int)
    ensures
        list_positions(vals, n).len() <= vals.len(),
{
    lemma_list_pos_scan_bound(vals, n, 1, 0);
}

proof fn lemma_list_pos_scan_bound(vals: Seq<int>, n: int, i: int, taken: int)
    requires
        taken >= 0,
    ensures
        list_pos_scan(vals, n, i, taken).len() + taken <= vals.len() || list_pos_scan(
            vals,
            n,
            i,
            taken,
        ).len() == 0,
    decreases n + 1 - i,
{
    if !(i > n || i < 1 || taken >= vals.len()) {
        if vals.contains(i) {
            lemma_list_pos_scan_bound(vals, n, i + 1, taken + 1);
        } else {
            lemma_list_pos_scan_bound(vals, n, i + 1, taken);
        }
    }
}

/// Every position a list selector resolves to is one the list names,
/// and the positions come in increasing enumeration order.
pub proof fn lemma_list_positions_sound(vals: Seq<int>, n: int)
    ensures
        forall|k: int|
            0 <= k < list_positions(vals, n).len() ==> vals.contains(
                #[trigger] list_positions(vals, n)[k],
            ) && 1 <= list_positions(vals, n)[k] <= n,
        forall|k1: int, k2: int|
            0 <= k1 < k2 < list_positions(vals, n).len() ==> list_positions(vals, n)[k1]
                < list_positions(vals, n)[k2],
{
    lemma_list_pos_scan_sound(vals, n, 1, 0);
}

proof fn lemma_list_pos_scan_sound(vals: Seq<int>, n: int, i: int, taken: int)
    ensures
        forall|k: int|
            0 <= k < list_pos_scan(vals, n, i, taken).len() ==> vals.contains(
                #[trigger] list_pos_scan(vals, n, i, taken)[k],
            ) && i <= list_pos_scan(vals, n, i, taken)[k] <= n,
        forall|k1: int, k2: int|
            0 <= k1 < k2 < list_pos_scan(vals, n, i, taken).len() ==> list_pos_scan(
                vals,
                n,
                i,
                taken,
            )[k1] < list_pos_scan(vals, n, i, taken)[k2],
    decreases n + 1 - i,
{
    if !(i > n || i < 1 || taken >= vals.len()) {
        let res = list_pos_scan(vals, n, i, taken);
        if vals.contains(i) {
            lemma_list_pos_scan_sound(vals, n, i + 1, taken + 1);
            let rest = list_pos_scan(vals, n, i + 1, taken + 1);
            assert(res == seq![i] + rest);
            assert forall|k: int| 0 <= k < res.len() implies vals.contains(#[trigger] res[k]) && i
                <= res[k] <= n by {
                if k == 0 {
                    assert(res[k] == i);
                } else {
                    assert(res[k] == rest[k - 1]);
                }
            }
            assert forall|k1: int, k2: int| 0 <= k1 < k2 < res.len() implies res[k1] < res[k2] by {
                assert(res[k2] == rest[k2 - 1]);
                if k1 == 0 {
                    assert(res[k1] == i);
                    assert(i + 1 <= rest[k2 - 1]);
                } else {
                    assert(res[k1] == rest[k1 - 1]);
                }
            }
        } else {
            lemma_list_pos_scan_sound(vals, n, i + 1, taken);
            let rest = list_pos_scan(vals, n, i + 1, taken);
            assert(res == rest);
            assert forall|k: int| 0 <= k < res.len() implies vals.contains(#[trigger] res[k]) && i
                <= res[k] <= n by {
                assert(res[k] == rest[k]);
            }
            assert forall|k1: int, k2: int| 0 <= k1 < k2 < res.len() implies res[k1] < res[k2] by {
                assert(res[k1] == rest[k1]);
                assert(res[k2] == rest[k2]);
            }
        }
    }
}

/// Every position of the snapshot that the list names, in enumeration
/// order, without the cut-off.
pub open spec fn matching_positions(vals: Seq<int>, n: int, i: int) -> Seq<int>
    decreases n + 1 - i,
{
    if i > n || i < 1 {
        Seq::empty()
    } else if vals.contains(i) {
        seq![i] + matching_positions(vals, n, i + 1)
    } else {
        matching_positions(vals, n, i + 1)
    }
}

/// A list selector resolves to exactly the leading named positions of
/// the snapshot, in enumeration order: the result is a prefix of all
/// matching positions, cut off once as many entries are taken as the
/// list has values.
pub proof fn lemma_list_positions_exact(vals: Seq<int>, n: int)
    ensures
        ({
            let m = matching_positions(vals, n, 1);
            let r = list_positions(vals, n);
            &&& r.len() == (if vals.len() as int <= m.len() as int {
                vals.len() as int
            } else {
                m.len() as int
            })
            &&& forall|k: int| 0 <= k < r.len() ==> #[trigger] r[k] == m[k]
        }),
{
    lemma_list_pos_scan_prefix(vals, n, 1, 0);
}

proof fn lemma_list_pos_scan_prefix(vals: Seq<int>, n: int, i: int, taken: int)
    requires
        0 <= taken,
    ensures
        ({
            let limit: int = if vals.len() >= taken {
                vals.len() - taken
            } else {
                0
            };
            let m = matching_positions(vals, n, i);
            let r = list_pos_scan(vals, n, i, taken);
            &&& r.len() == (if limit <= m.len() as int {
                limit
            } else {
                m.len() as int
            })
            &&& forall|k: int| 0 <= k < r.len() ==> #[trigger] r[k] == m[k]
        }),
    decreases n + 1 - i,
{
    let m = matching_positions(vals, n, i);
    let r = list_pos_scan(vals, n, i, taken);
    if i > n || i < 1 || taken >= vals.len() {
        assert(r.len() == 0);
    } else if vals.contains(i) {
        lemma_list_pos_scan_prefix(vals, n, i + 1, taken + 1);
        let m2 = matching_positions(vals, n, i + 1);
        let r2 = list_pos_scan(vals, n, i + 1, taken + 1);
        assert(m == seq![i] + m2);
        assert(r == seq![i] + r2);
        assert forall|k: int| 0 <= k < r.len() implies #[trigger] r[k] == m[k] by {
            if k == 0 {
                assert(r[0] == i && m[0] == i);
            } else {
                assert(r[k] == r2[k - 1]);
                assert(m[k] == m2[k - 1]);
            }
        }
    } else {
        lemma_list_pos_scan_prefix(vals, n, i + 1, taken);
    }
}

/// Digit strings hold no selector punctuation.
proof fn lemma_digits_free_of(s: Seq<char>, c: char)
    requires
        all_digits(s),
        digit_val(c) < 0,
    ensures
        find_from(s, c, 0) is None,
{
    lemma_find_from_bounds(s, c, 0);
    if find_from(s, c, 0) is Some {
        let j = find_from(s, c, 0)->0;
        assert(is_digit(s[j]));
        assert(false);
    }
}

/// A lone numeric selector resolves to exactly its 1-based position
/// of the snapshot; a position outside it is refused by name.
pub proof fn lemma_single_selector(sel: Seq<char>, n: int)
    requires
        sel.len() > 0,
        all_digits(sel),
        dec_val(sel) <= u64::MAX,
    ensures
        1 <= dec_val(sel) <= n ==> fetch_seq_positions(sel, n) == Ok::<Seq<int>, Error>(
            seq![dec_val(sel)],
        ),
        !(1 <= dec_val(sel) <= n) ==> fetch_seq_positions(sel, n) == Err::<Seq<int>, Error>(
            Error::NoSuchMessage,
        ),
{
    lemma_digits_free_of(sel, ',');
    lemma_digits_free_of(sel, ':');
}

/// A range selector resolves to exactly the positions in `[a, b]`
/// clamped to the snapshot, in increasing order.
pub proof fn lemma_range_positions_exact(a: int, b: int, n: int)
    ensures
        ({
            let lo = if a < 1 {
                1
            } else {
                a
            };
            let hi = if b > n {
                n
            } else {
                b
            };
            &&& (lo > hi ==> range_positions(a, b, n) == Seq::<int>::empty())
            &&& (lo <= hi ==> range_positions(a, b, n).len() == hi + 1 - lo)
            &&& (forall|k: int|
                0 <= k < range_positions(a, b, n).len() ==> #[trigger] range_positions(a, b, n)[k]
                    == lo + k)
        }),
{
}

/// The numeric values of the pieces of a list selector; nothing if
/// any piece is empty, not numeric, or too large.
pub open spec fn sel_values(pieces: Seq<Seq<char>>) -> Option<Seq<int>>
    decreases pieces.len(),
{
    if pieces.len() == 0 {
        Some(Seq::empty())
    } else if pieces[0].len() > 0 && all_digits(pieces[0]) && dec_val(pieces[0]) <= u64::MAX {
        match sel_values(pieces.drop_first()) {
            None => None,
            Some(rest) => Some(seq![dec_val(pieces[0])] + rest),
        }
    } else {
        None
    }
}

/// Parse every piece of a list selector as a number.
fn parse_sel_values(pieces: &Vec<String>) -> (r: Option<Vec<u64>>)
    ensures
        r is Some <==> sel_values(pieces.deep_view()) is Some,
        r is Some ==> r->0@.map_values(|v: u64| v as int) == sel_values(pieces.deep_view())->0,
{
    let ghost full = pieces.deep_view();
    let mut out: Vec<u64> = Vec::new();
    let mut i: usize = 0;
    proof {
        assert(full.skip(0) =~= full);
        assert(out@.map_values(|v: u64| v as int) =~= Seq::<int>::empty());
        if sel_values(full) is Some {
            assert(Seq::<int>::empty() + sel_values(full)->0 =~= sel_values(full)->0);
        }
    }
    while i < pieces.len()
        invariant
            i <= pieces.len(),
            full == pieces.deep_view(),
            ({
                let rem = sel_values(full.skip(i as int));
                &&& (rem is Some ==> sel_values(full) is Some && sel_values(full)->0
                    == out@.map_values(|v: u64| v as int) + rem->0)
                &&& (rem is None ==> sel_values(full) is None)
            }),
        decreases pieces.len() - i,
    {
        let piece = &pieces[i];
        proof {
            assert(full.skip(i as int)[0] == piece@);
            assert(full.skip(i as int).drop_first() =~= full.skip(i + 1));
        }
        match parse_u64(piece.as_str()) {
            None => {
                assert(sel_values(full.skip(i as int)) is None);
                return None;
            },
            Some(v) => {
                out.push(v);
                proof {
                    let rem = sel_values(full.skip(i + 1));
                    if rem is Some {
                        assert(out@.map_values(|t: u64| t as int) =~= out@.subrange(
                            0,
                            out@.len() - 1,
                        ).map_values(|t: u64| t as int).push(v as int));
                        assert(sel_values(full.skip(i as int))->0 =~= seq![v as int] + rem->0);
                        assert(out@.subrange(0, out@.len() - 1).map_values(|t: u64| t as int) + (
                        seq![v as int] + rem->0) =~= out@.map_values(|t: u64| t as int) + rem->0);
                    }
                }
                i += 1;
            },
        }
    }
    proof {
        assert(full.skip(i as int) =~= Seq::<Seq<char>>::empty());
        assert(sel_values(full)->0 =~= out@.map_values(|v: u64| v as int));
    }
    Some(out)
}

/// The response one snapshot entry renders at sequence position `pos`
/// for the requested attribute set.
pub open spec fn render_entry_spec(e: EntryV, pos: int, args: Seq<char>) -> Result<
    Seq<char>,
    Error,
> {
    if !(valid_uid_name(e.name) && uid_of(e.name) <= u64::MAX) {
        Err(Error::BadMessageFile)
    } else {
        let seq_s = dec_of(pos as nat);
        let uid_s = dec_of(uid_of(e.name) as nat);
        if args == "(UID)"@ {
            Ok(uid_fetch_line(seq_s, uid_s))
        } else if args == "(UID FLAGS)"@ {
            Ok(uid_flags_line(seq_s, uid_s))
        } else if args == "(UID FLAGS RFC822.SIZE BODY.PEEK[] INTERNALDATE)"@ {
            if 0 <= e.created_ts <= MAX_FORMAT_TS {
                Ok(body_fetch_line(seq_s, uid_s, e.contents, internal_date_of(e.created_ts)))
            } else {
                Err(Error::TimeDate)
            }
        } else {
            Err(Error::UnsupportedFetch)
        }
    }
}

/// The responses for the entries at `positions`, in order; the first
/// failure wins.
pub open spec fn render_positions_spec(
    snap: Seq<EntryV>,
    positions: Seq<int>,
    args: Seq<char>,
) -> Result<Seq<Seq<char>>, Error>
    decreases positions.len(),
{
    if positions.len() == 0 {
        Ok(Seq::empty())
    } else {
        match render_entry_spec(snap[positions[0] - 1], positions[0], args) {
            Err(e) => Err(e),
            Ok(line) => match render_positions_spec(snap, positions.drop_first(), args) {
                Err(e) => Err(e),
                Ok(rest) => Ok(seq![line] + rest),
            },
        }
    }
}

/// Render the snapshot entries at the given 1-based positions.
fn render_positions(snapshot: &Vec<MailEntry>, positions: &Vec<usize>, args: &str) -> (r:
    IMAPResult<Vec<String>>)
    requires
        snapshot_wf(snapshot@),
        forall|i: int|
            0 <= i < positions@.len() ==> 1 <= #[trigger] positions@[i] <= snapshot@.len(),
    ensures
        ({
            let spec_r = render_positions_spec(
                snapshot.deep_view(),
                positions@.map_values(|p: usize| p as int),
                args@,
            );
            &&& (r is Ok <==> spec_r is Ok)
            &&& (r is Ok ==> r->Ok_0.deep_view() == spec_r->Ok_0)
            &&& (r is Err ==> spec_r is Err && r->Err_0 == spec_r->Err_0)
        }),
{
    let ghost snap = snapshot.deep_view();
    let ghost ps = positions@.map_values(|p: usize| p as int);
    let mut out: Vec<String> = Vec::new();
    let mut i: usize = 0;
    proof {
        assert(ps.skip(0) =~= ps);
        assert(out.deep_view() =~= Seq::<Seq<char>>::empty());
        if render_positions_spec(snap, ps, args@) is Ok {
            assert(Seq::<Seq<char>>::empty() + render_positions_spec(snap, ps, args@)->Ok_0
                =~= render_positions_spec(snap, ps, args@)->Ok_0);
        }
    }
    while i < positions.len()
        invariant
            i <= positions.len(),
            snap == snapshot.deep_view(),
            ps == positions@.map_values(|p: usize| p as int),
            snapshot_wf(snapshot@),
            forall|k: int|
                0 <= k < positions@.len() ==> 1 <= #[trigger] positions@[k] <= snapshot@.len(),
            ({
                let rem = render_positions_spec(snap, ps.skip(i as int), args@);
                &&& (rem is Ok ==> render_positions_spec(snap, ps, args@) is Ok
                    && render_positions_spec(snap, ps, args@)->Ok_0 == out.deep_view() + rem->Ok_0)
                &&& (rem is Err ==> render_positions_spec(snap, ps, args@) is Err
                    && render_positions_spec(snap, ps, args@)->Err_0 == rem->Err_0)
            }),
        decreases positions.len() - i,
    {
        let p = positions[i];
        let entry = &snapshot[p - 1];
        proof {
            assert(ps.skip(i as int)[0] == p as int);
            assert(ps.skip(i as int).drop_first() =~= ps.skip(i + 1));
            assert(snap[p - 1] == snapshot@[p - 1].deep_view());
            assert(snapshot@[p - 1].wf());
        }
        let uid = match filename_to_uid(entry.name.as_str()) {
            Err(e) => {
                assert(render_entry_spec(snap[p - 1], p as int, args@) == Err::<Seq<char>, Error>(
                    Error::BadMessageFile,
                ));
                return Err(e);
            },
            Ok(u) => u,
        };
        let uid_s = u64_to_string(uid);
        let seq_s = u64_to_string(p as u64);
        let email = Email::new(
            uid_s.as_str(),
            seq_s.as_str(),
            entry.contents.as_str(),
            entry.created_ts,
        );
        match email.format_response(args) {
            Err(e) => {
                assert(render_entry_spec(snap[p - 1], p as int, args@) == Err::<Seq<char>, Error>(
                    e,
                ));
                return Err(e);
            },
            Ok(line) => {
                proof {
                    assert(render_entry_spec(snap[p - 1], p as int, args@) == Ok::<
                        Seq<char>,
                        Error,
                    >(line@));
                }
                out.push(line);
                proof {
                    let rem = render_positions_spec(snap, ps.skip(i + 1), args@);
                    if rem is Ok {
                        assert(out.deep_view() =~= out.deep_view().subrange(
                            0,
                            out.deep_view().len() - 1,
                        ).push(line@));
                        assert(out.deep_view().subrange(0, out.deep_view().len() - 1) + (
                        seq![line@] + rem->Ok_0) =~= out.deep_view() + rem->Ok_0);
                    }
                }
                i += 1;
            },
        }
    }
    proof {
        assert(ps.skip(i as int) =~= Seq::<int>::empty());
        assert(render_positions_spec(snap, ps, args@)->Ok_0 =~= out.deep_view());
    }
    Ok(out)
}

/// Whether `x` is among the selector values.
fn vals_contain(vals: &Vec<u64>, x: u64) -> (r: bool)
    ensures
        r == vals@.map_values(|v: u64| v as int).contains(x as int),
{
    let mut j: usize = 0;
    while j < vals.len()
        invariant
            j <= vals.len(),
            forall|k: int| 0 <= k < j ==> vals@[k] != x,
        decreases vals.len() - j,
    {
        if vals[j] == x {
            assert(vals@.map_values(|v: u64| v as int)[j as int] == x as int);
            return true;
        }
        j += 1;
    }
    proof {
        let mapped = vals@.map_values(|v: u64| v as int);
        assert(forall|k: int| 0 <= k < mapped.len() ==> #[trigger] mapped[k] != x as int);
        assert(!mapped.contains(x as int));
    }
    false
}

/// The 1-based positions of a snapshot of `n` entries that a list
/// selector picks, in order, cut off at the list's length.
fn list_sel_positions(vals: &Vec<u64>, n: usize) -> (r: Vec<usize>)
    ensures
        r@.map_values(|p: usize| p as int) == list_positions(
            vals@.map_values(|v: u64| v as int),
            n as int,
        ),
        forall|i: int| 0 <= i < r@.len() ==> 1 <= #[trigger] r@[i] <= n,
{
    let ghost vv = vals@.map_values(|v: u64| v as int);
    let mut out: Vec<usize> = Vec::new();
    let mut idx: usize = 0;
    proof {
        assert(out@.map_values(|p: usize| p as int) =~= Seq::<int>::empty());
    }
    while idx < n
        invariant
            idx <= n,
            vv == vals@.map_values(|v: u64| v as int),
            out@.len() <= vals@.len(),
            forall|i: int| 0 <= i < out@.len() ==> 1 <= #[trigger] out@[i] <= n,
            list_positions(vv, n as int) == out@.map_values(|p: usize| p as int) + list_pos_scan(
                vv,
                n as int,
                idx + 1,
                out@.len() as int,
            ),
        decreases n - idx,
    {
        let p = idx + 1;
        if out.len() >= vals.len() {
            proof {
                assert(list_pos_scan(vv, n as int, idx + 1, out@.len() as int)
                    =~= Seq::<int>::empty());
                assert(list_positions(vv, n as int) =~= out@.map_values(|q: usize| q as int));
            }
            return out;
        }
        if vals_contain(vals, p as u64) {
            proof {
                assert(vv.contains(p as int));
                assert(list_pos_scan(vv, n as int, p as int, out@.len() as int) == seq![p as int]
                    + list_pos_scan(vv, n as int, p + 1, out@.len() + 1 as int));
            }
            out.push(p);
            proof {
                assert(out@.map_values(|q: usize| q as int) =~= out@.subrange(
                    0,
                    out@.len() - 1,
                ).map_values(|q: usize| q as int).push(p as int));
                assert(out@.subrange(0, out@.len() - 1).map_values(|q: usize| q as int) + (
                seq![p as int] + list_pos_scan(vv, n as int, p + 1, out@.len() as int))
                    =~= out@.map_values(|q: usize| q as int) + list_pos_scan(
                    vv,
                    n as int,
                    p + 1,
                    out@.len() as int,
                ));
            }
        } else {
            proof {
                assert(!vv.contains(p as int));
                assert(list_pos_scan(vv, n as int, p as int, out@.len() as int) == list_pos_scan(
                    vv,
                    n as int,
                    p + 1,
                    out@.len() as int,
                ));
            }
        }
        idx = p;
    }
    proof {
        assert(list_pos_scan(vv, n as int, n + 1, out@.len() as int) =~= Seq::<int>::empty());
        assert(list_positions(vv, n as int) =~= out@.map_values(|q: usize| q as int));
    }
    out
}

/// The 1-based positions of a snapshot of `n` entries inside the
/// range `a:b`.
fn range_sel_positions(a: u64, b: u64, n: usize) -> (r: Vec<usize>)
    ensures
        r@.map_values(|p: usize| p as int) == range_positions(a as int, b as int, n as int),
        forall|i: int| 0 <= i < r@.len() ==> 1 <= #[trigger] r@[i] <= n,
{
    let lo_u: u64 = if a < 1 {
        1
    } else {
        a
    };
    let hi_u: u64 = if b > n as u64 {
        n as u64
    } else {
        b
    };
    let mut out: Vec<usize> = Vec::new();
    if lo_u > hi_u {
        proof {
            assert(out@.map_values(|p: usize| p as int) =~= range_positions(
                a as int,
                b as int,
                n as int,
            ));
        }
        return out;
    }
    let lo: usize = lo_u as usize;
    let hi: usize = hi_u as usize;
    let count: usize = hi - lo + 1;
    let mut k: usize = 0;
    while k < count
        invariant
            k <= count,
            1 <= lo <= hi <= n,
            count == hi - lo + 1,
            out@.len() == k,
            forall|i: int| 0 <= i < out@.len() ==> #[trigger] out@[i] == lo + i,
        decreases count - k,
    {
        out.push(lo + k);
        k += 1;
    }
    proof {
        assert(out@.map_values(|p: usize| p as int) =~= range_positions(
            a as int,
            b as int,
            n as int,
        ));
    }
    out
}

/// The positions a sequence-number selector resolves to over a
/// snapshot of `n` entries: a single number, a comma-separated list,
/// or a colon-separated inclusive range.
pub open spec fn fetch_seq_positions(sel: Seq<char>, n: int) -> Result<Seq<int>, Error> {
    if find_from(sel, ',', 0) is Some {
        match sel_values(split_spec(sel, ',')) {
            None => Err(Error::BadSelector),
            Some(vals) => Ok(list_positions(vals, n)),
        }
    } else if find_from(sel, ':', 0) is Some {
        let j = find_from(sel, ':', 0)->0;
        let a = sel.subrange(0, j);
        let b = sel.subrange(j + 1, sel.len() as int);
        if a.len() > 0 && all_digits(a) && dec_val(a) <= u64::MAX && b.len() > 0 && all_digits(b)
            && dec_val(b) <= u64::MAX {
            Ok(range_positions(dec_val(a), dec_val(b), n))
        } else {
            Err(Error::BadSelector)
        }
    } else {
        if sel.len() > 0 && all_digits(sel) && dec_val(sel) <= u64::MAX {
            if 1 <= dec_val(sel) <= n {
                Ok(seq![dec_val(sel)])
            } else {
                Err(Error::NoSuchMessage)
            }
        } else {
            Err(Error::BadSelector)
        }
    }
}

/// What a sequence-number FETCH answers: the message text for the
/// selector and attribute set of `msg`, over the given snapshot.
pub open spec fn fetch_seq_spec(msg: Seq<char>, snap: Seq<EntryV>) -> Result<
    Seq<Seq<char>>,
    Error,
> {
    match find_from(msg, ' ', 0) {
        None => Err(Error::UnsupportedFetch),
        Some(j) => {
            let sel = msg.subrange(0, j);
            let args = msg.subrange(j + 1, msg.len() as int);
            match fetch_seq_positions(sel, snap.len() as int) {
                Err(e) => Err(e),
                Ok(ps) => render_positions_spec(snap, ps, args),
            }
        },
    }
}

/// LOGIN credentials cleaned of quotes and line ends.
pub open spec fn login_cleaned(creds: Seq<char>) -> Seq<char> {
    strip_spec(creds, "\"\r\n"@)
}

/// The user token of a LOGIN line: the second-to-last blank-separated
/// token of the cleaned credentials.
pub open spec fn login_user(creds: Seq<char>) -> Seq<char> {
    let cleaned = login_cleaned(creds);
    last_token_spec(cleaned.subrange(0, rfind(cleaned, ' ')->0), ' ')
}

/// The local part of an address: everything before its first `@`, or
/// the whole token.
pub open spec fn local_part(u: Seq<char>) -> Seq<char> {
    match find_from(u, '@', 0) {
        None => u,
        Some(k) => u.subrange(0, k),
    }
}

/// What LIST answers for a folder argument already uppercased and
/// stripped of quotes: a known folder by name; the root placeholder
/// for an empty or `%/%` argument; every folder for `%` or `*`;
/// nothing else.
pub open spec fn list_spec(arg: Seq<char>, folders: Seq<Seq<char>>) -> Seq<Seq<char>> {
    if folders.contains(arg) {
        seq![arg]
    } else if arg.len() == 0 || arg == "%/%"@ {
        seq!["\"\""@]
    } else if arg == "%"@ || arg == "*"@ {
        folders
    } else {
        Seq::empty()
    }
}

/// The LIST argument: the last blank-separated token of the message,
/// stripped of quotes and uppercased.
pub open spec fn list_arg(msg: Seq<char>) -> Seq<char> {
    upper_seq(strip_spec(last_token_spec(msg, ' '), "\""@))
}

/// One connection's state: who is logged in, how many messages the
/// inbox held when it was last counted, and how many unrecognised
/// commands arrived in a row.
#[derive(Debug)]
pub struct UserSession {
    pub email: Option<String>,
    pub username: Option<String>,
    pub mail_count: usize,
    pub authenticated: bool,
    pub bad_attempts: u8,
}

/// The mathematical image of a [`UserSession`].
pub ghost struct SessionV {
    pub email: Option<Seq<char>>,
    pub username: Option<Seq<char>>,
    pub mail_count: int,
    pub authenticated: bool,
    pub bad_attempts: int,
}

impl View for UserSession {
    type V = SessionV;

    open spec fn view(&self) -> SessionV {
        SessionV {
            email: match self.email {
                None => None,
                Some(e) => Some(e@),
            },
            username: match self.username {
                None => None,
                Some(u) => Some(u@),
            },
            mail_count: self.mail_count as int,
            authenticated: self.authenticated,
            bad_attempts: self.bad_attempts as int,
        }
    }
}

impl UserSession {
    /// A username is stored exactly while the session is
    /// authenticated.
    pub open spec fn wf(&self) -> bool {
        self.authenticated <==> self.username is Some
    }

    /// A fresh, unauthenticated session.
    pub fn new() -> (r: UserSession)
        ensures
            r.email is None,
            r.username is None,
            r.mail_count == 0,
            !r.authenticated,
            r.bad_attempts == 0,
            r.wf(),
    {
        UserSession {
            email: None,
            username: None,
            mail_count: 0,
            authenticated: false,
            bad_attempts: 0,
        }
    }

    /// Record a LOGIN: succeeds exactly when the credential line
    /// splits into at least two tokens; the second-to-last is the
    /// address, whose local part becomes the username.
    pub fn authenticate(&mut self, creds: &str) -> (ok: bool)
        ensures
            ok <==> rfind(login_cleaned(creds@), ' ') is Some,
            !ok ==> *final(self) == *old(self),
            ok ==> {
                &&& final(self).authenticated
                &&& final(self).email matches Some(e) && e@ == login_user(creds@)
                &&& final(self).username matches Some(u) && u@ == local_part(login_user(creds@))
                &&& final(self).mail_count == old(self).mail_count
                &&& final(self).bad_attempts == old(self).bad_attempts
            },
            ok ==> final(self).wf(),
    {
        let cleaned = strip_chars(creds, "\"\r\n");
        match rfind_char(cleaned.as_str(), ' ') {
            None => false,
            Some(j) => {
                proof {
                    lemma_rfind_bounds(cleaned@, ' ');
                }
                let prefix = cleaned.as_str().substring_char(0, j);
                let user = last_token(prefix, ' ');
                let uname = match find_char_from(user, '@', 0) {
                    None => user.to_owned(),
                    Some(k) => {
                        proof {
                            lemma_find_from_bounds(user@, '@', 0);
                        }
                        user.substring_char(0, k).to_owned()
                    },
                };
                self.email = Some(user.to_owned());
                self.username = Some(uname);
                self.authenticated = true;
                true
            },
        }
    }

    /// Recompute the point-in-time message count from a fresh inbox
    /// snapshot; refused while nobody is logged in.
    pub fn count_emails(&mut self, snapshot: &Vec<MailEntry>) -> (r: IMAPResult<()>)
        ensures
            r is Ok <==> (old(self).username is Some),
            r is Err ==> r->Err_0 == Error::FolderLookup && *final(self) == *old(self),
            r is Ok ==> {
                &&& final(self).mail_count == snapshot@.len()
                &&& final(self).email == old(self).email
                &&& final(self).username == old(self).username
                &&& final(self).authenticated == old(self).authenticated
                &&& final(self).bad_attempts == old(self).bad_attempts
            },
    {
        match &self.username {
            None => Err(Error::FolderLookup),
            Some(_) => {
                self.mail_count = snapshot.len();
                Ok(())
            },
        }
    }

    /// COPY is not implemented; it always reports failure.
    pub fn copy(&self, _msg: &str) -> (r: IMAPResult<()>)
        ensures
            r == Err::<(), Error>(Error::IMAPCopyErr),
    {
        Err(Error::IMAPCopyErr)
    }

    /// Resolve a LIST argument against the session's folders.
    pub fn list(&self, msg: &str, folders: &Vec<String>) -> (r: IMAPResult<Vec<String>>)
        ensures
            r is Ok,
            r->Ok_0.deep_view() == list_spec(list_arg(msg@), folders.deep_view()),
    {
        let token = last_token(msg, ' ');
        let stripped = strip_chars(token, "\"");
        let arg = to_upper(stripped.as_str());
        assert(arg@ == list_arg(msg@));
        let mut j: usize = 0;
        while j < folders.len()
            invariant
                j <= folders.len(),
                arg@ == list_arg(msg@),
                forall|k: int| 0 <= k < j ==> folders@[k]@ != arg@,
            decreases folders.len() - j,
        {
            if str_eq(folders[j].as_str(), arg.as_str()) {
                proof {
                    assert(folders.deep_view()[j as int] == arg@);
                    assert(folders.deep_view().contains(arg@));
                }
                let mut out: Vec<String> = Vec::new();
                out.push(arg);
                proof {
                    assert(out.deep_view() =~~= list_spec(list_arg(msg@), folders.deep_view()));
                }
                return Ok(out);
            }
            j += 1;
        }
        proof {
            assert(forall|k: int|
                0 <= k < folders.deep_view().len() ==> #[trigger] folders.deep_view()[k] != arg@);
            assert(!folders.deep_view().contains(arg@));
        }
        if arg.as_str().is_empty() || str_eq(arg.as_str(), "%/%") {
            let mut out: Vec<String> = Vec::new();
            out.push("\"\"".to_owned());
            proof {
                assert(out.deep_view() =~~= list_spec(list_arg(msg@), folders.deep_view()));
            }
            Ok(out)
        } else if str_eq(arg.as_str(), "%") || str_eq(arg.as_str(), "*") {
            let mut out: Vec<String> = Vec::new();
            let mut j2: usize = 0;
            while j2 < folders.len()
                invariant
                    j2 <= folders.len(),
                    out@.len() == j2,
                    forall|k: int| 0 <= k < j2 ==> #[trigger] out@[k]@ == folders@[k]@,
                decreases folders.len() - j2,
            {
                let f = folders[j2].clone();
                out.push(f);
                j2 += 1;
            }
            proof {
                assert(out.deep_view() =~~= folders.deep_view());
            }
            Ok(out)
        } else {
            let out: Vec<String> = Vec::new();
            proof {
                assert(out.deep_view() =~~= list_spec(list_arg(msg@), folders.deep_view()));
            }
            Ok(out)
        }
    }

    /// Resolve a sequence-number FETCH: selector and attribute set,
    /// against a fresh snapshot.
    pub fn fetch_seq(&self, msg: &str, snapshot: &Vec<MailEntry>) -> (r: IMAPResult<Vec<String>>)
        requires
            snapshot_wf(snapshot@),
        ensures
            ({
                let spec_r = fetch_seq_spec(msg@, snapshot.deep_view());
                &&& (r is Ok <==> spec_r is Ok)
                &&& (r is Ok ==> r->Ok_0.deep_view() == spec_r->Ok_0)
                &&& (r is Err ==> spec_r is Err && r->Err_0 == spec_r->Err_0)
            }),
    {
        let mlen = msg.unicode_len();
        let j = match find_char_from(msg, ' ', 0) {
            None => {
                return Err(Error::UnsupportedFetch);
            },
            Some(j) => j,
        };
        proof {
            lemma_find_from_bounds(msg@, ' ', 0);
        }
        let sel = msg.substring_char(0, j);
        let args = msg.substring_char(j + 1, mlen);
        let positions: Vec<usize>;
        if contains_comma(sel) {
            proof {
                lemma_find_from_bounds(sel@, ',', 0);
            }
            let pieces = split_on_char(sel, ',');
            let vals = match parse_sel_values(&pieces) {
                None => {
                    return Err(Error::BadSelector);
                },
                Some(v) => v,
            };
            positions = list_sel_positions(&vals, snapshot.len());
        } else if contains_colon(sel) {
            proof {
                lemma_find_from_bounds(sel@, ',', 0);
                lemma_find_from_bounds(sel@, ':', 0);
            }
            let slen = sel.unicode_len();
            let k = match find_char_from(sel, ':', 0) {
                None => {
                    return Err(Error::BadSelector);
                },
                Some(k) => k,
            };
            let a_str = sel.substring_char(0, k);
            let b_str = sel.substring_char(k + 1, slen);
            let a = match parse_u64(a_str) {
                None => {
                    return Err(Error::BadSelector);
                },
                Some(a) => a,
            };
            let b = match parse_u64(b_str) {
                None => {
                    return Err(Error::BadSelector);
                },
                Some(b) => b,
            };
            positions = range_sel_positions(a, b, snapshot.len());
        } else {
            proof {
                lemma_find_from_bounds(sel@, ',', 0);
                lemma_find_from_bounds(sel@, ':', 0);
            }
            let v = match parse_u64(sel) {
                None => {
                    return Err(Error::BadSelector);
                },
                Some(v) => v,
            };
            if v < 1 || v > snapshot.len() as u64 {
                return Err(Error::NoSuchMessage);
            }
            let mut one: Vec<usize> = Vec::new();
            one.push(v as usize);
            proof {
                assert(one@.map_values(|p: usize| p as int) =~= seq![dec_val(sel@)]);
            }
            positions = one;
        }
        render_positions(snapshot, &positions, args)
    }
}

/// Whether a UID matches a UID selector: membership of the list, or
/// inclusion in the inclusive range.
pub open spec fn uid_sel_match(use_range: bool, vals: Seq<int>, lo: int, hi: int, uid: int) -> bool {
    if use_range {
        lo <= uid <= hi
    } else {
        vals.contains(uid)
    }
}

/// The responses of a UID FETCH: every entry, in enumeration order,
/// whose derived UID the selector picks; an entry whose filename
/// derives no UID fails the whole command.
pub open spec fn uid_scan(
    snap: Seq<EntryV>,
    use_range: bool,
    vals: Seq<int>,
    lo: int,
    hi: int,
    i: int,
    args: Seq<char>,
) -> Result<Seq<Seq<char>>, Error>
    decreases snap.len() - i,
{
    if i < 0 || i >= snap.len() {
        Ok(Seq::empty())
    } else if !(valid_uid_name(snap[i].name) && uid_of(snap[i].name) <= u64::MAX) {
        Err(Error::BadMessageFile)
    } else if uid_sel_match(use_range, vals, lo, hi, uid_of(snap[i].name)) {
        match render_entry_spec(snap[i], i + 1, args) {
            Err(e) => Err(e),
            Ok(line) => match uid_scan(snap, use_range, vals, lo, hi, i + 1, args) {
                Err(e) => Err(e),
                Ok(rest) => Ok(seq![line] + rest),
            },
        }
    } else {
        uid_scan(snap, use_range, vals, lo, hi, i + 1, args)
    }
}

/// What a UID FETCH answers: selector values are UIDs, a colon
/// denotes a true inclusive UID range.
pub open spec fn fetch_uid_spec(msg: Seq<char>, snap: Seq<EntryV>) -> Result<
    Seq<Seq<char>>,
    Error,
> {
    match find_from(msg, ' ', 0) {
        None => Err(Error::UnsupportedFetch),
        Some(j) => {
            let sel = msg.subrange(0, j);
            let args = msg.subrange(j + 1, msg.len() as int);
            if find_from(sel, ',', 0) is Some {
                match sel_values(split_spec(sel, ',')) {
                    None => Err(Error::BadSelector),
                    Some(vals) => uid_scan(snap, false, vals, 0, 0, 0, args),
                }
            } else if find_from(sel, ':', 0) is Some {
                let k = find_from(sel, ':', 0)->0;
                let a = sel.subrange(0, k);
                let b = sel.subrange(k + 1, sel.len() as int);
                if a.len() > 0 && all_digits(a) && dec_val(a) <= u64::MAX && b.len() > 0
                    && all_digits(b) && dec_val(b) <= u64::MAX {
                    uid_scan(snap, true, Seq::empty(), dec_val(a), dec_val(b), 0, args)
                } else {
                    Err(Error::BadSelector)
                }
            } else {
                if sel.len() > 0 && all_digits(sel) && dec_val(sel) <= u64::MAX {
                    uid_scan(snap, false, seq![dec_val(sel)], 0, 0, 0, args)
                } else {
                    Err(Error::BadSelector)
                }
            }
        },
    }
}

impl UserSession {
    /// Resolve a UID FETCH: selector and attribute set, against a
    /// fresh snapshot.  A colon selector is an inclusive UID range.
    pub fn fetch_uid(&self, msg: &str, snapshot: &Vec<MailEntry>) -> (r: IMAPResult<Vec<String>>)
        requires
            snapshot_wf(snapshot@),
        ensures
            ({
                let spec_r = fetch_uid_spec(msg@, snapshot.deep_view());
                &&& (r is Ok <==> spec_r is Ok)
                &&& (r is Ok ==> r->Ok_0.deep_view() == spec_r->Ok_0)
                &&& (r is Err ==> spec_r is Err && r->Err_0 == spec_r->Err_0)
            }),
    {
        let mlen = msg.unicode_len();
        let j = match find_char_from(msg, ' ', 0) {
            None => {
                return Err(Error::UnsupportedFetch);
            },
            Some(j) => j,
        };
        proof {
            lemma_find_from_bounds(msg@, ' ', 0);
        }
        let sel = msg.substring_char(0, j);
        let args = msg.substring_char(j + 1, mlen);
        let use_range: bool;
        let mut vals: Vec<u64> = Vec::new();
        let mut lo: u64 = 0;
        let mut hi: u64 = 0;
        if contains_comma(sel) {
            proof {
                lemma_find_from_bounds(sel@, ',', 0);
            }
            let pieces = split_on_char(sel, ',');
            vals = match parse_sel_values(&pieces) {
                None => {
                    return Err(Error::BadSelector);
                },
                Some(v) => v,
            };
            use_range = false;
        } else if contains_colon(sel) {
            proof {
                lemma_find_from_bounds(sel@, ',', 0);
                lemma_find_from_bounds(sel@, ':', 0);
            }
            let slen = sel.unicode_len();
            let k = match find_char_from(sel, ':', 0) {
                None => {
                    return Err(Error::BadSelector);
                },
                Some(k) => k,
            };
            let a_str = sel.substring_char(0, k);
            let b_str = sel.substring_char(k + 1, slen);
            lo = match parse_u64(a_str) {
                None => {
                    return Err(Error::BadSelector);
                },
                Some(a) => a,
            };
            hi = match parse_u64(b_str) {
                None => {
                    return Err(Error::BadSelector);
                },
                Some(b) => b,
            };
            use_range = true;
        } else {
            proof {
                lemma_find_from_bounds(sel@, ',', 0);
                lemma_find_from_bounds(sel@, ':', 0);
            }
            let v = match parse_u64(sel) {
                None => {
                    return Err(Error::BadSelector);
                },
                Some(v) => v,
            };
            vals.push(v);
            proof {
                assert(vals@.map_values(|t: u64| t as int) =~= seq![dec_val(sel@)]);
            }
            use_range = false;
        }
        let ghost snap = snapshot.deep_view();
        let ghost valsv = vals@.map_values(|t: u64| t as int);
        let mut out: Vec<String> = Vec::new();
        let mut i: usize = 0;
        proof {
            if use_range {
                assert(valsv =~= Seq::<int>::empty());
            }
            assert(fetch_uid_spec(msg@, snap) == uid_scan(
                snap,
                use_range,
                valsv,
                lo as int,
                hi as int,
                0,
                args@,
            ));
        }
        proof {
            if uid_scan(snap, use_range, valsv, lo as int, hi as int, 0, args@) is Ok {
                assert(Seq::<Seq<char>>::empty() + uid_scan(
                    snap,
                    use_range,
                    valsv,
                    lo as int,
                    hi as int,
                    0,
                    args@,
                )->Ok_0 =~= uid_scan(snap, use_range, valsv, lo as int, hi as int, 0, args@)->Ok_0);
            }
        }
        while i < snapshot.len()
            invariant
                i <= snapshot.len(),
                snap == snapshot.deep_view(),
                valsv == vals@.map_values(|t: u64| t as int),
                snapshot_wf(snapshot@),
                fetch_uid_spec(msg@, snap) == uid_scan(
                    snap,
                    use_range,
                    valsv,
                    lo as int,
                    hi as int,
                    0,
                    args@,
                ),
                ({
                    let rem = uid_scan(snap, use_range, valsv, lo as int, hi as int, i as int, args@);
                    let full = uid_scan(snap, use_range, valsv, lo as int, hi as int, 0, args@);
                    &&& (rem is Ok ==> full is Ok && full->Ok_0 == out.deep_view() + rem->Ok_0)
                    &&& (rem is Err ==> full is Err && full->Err_0 == rem->Err_0)
                }),
            decreases snapshot.len() - i,
        {
            let entry = &snapshot[i];
            proof {
                assert(snap[i as int] == snapshot@[i as int].deep_view());
                assert(snapshot@[i as int].wf());
            }
            let uid = match filename_to_uid(entry.name.as_str()) {
                Err(e) => {
                    return Err(e);
                },
                Ok(u) => u,
            };
            let selected = if use_range {
                lo <= uid && uid <= hi
            } else {
                vals_contain(&vals, uid)
            };
            if selected {
                let uid_s = u64_to_string(uid);
                let seq_s = u64_to_string((i + 1) as u64);
                let email = Email::new(
                    uid_s.as_str(),
                    seq_s.as_str(),
                    entry.contents.as_str(),
                    entry.created_ts,
                );
                match email.format_response(args) {
                    Err(e) => {
                        return Err(e);
                    },
                    Ok(line) => {
                        proof {
                            assert(render_entry_spec(snap[i as int], i + 1, args@) == Ok::<
                                Seq<char>,
                                Error,
                            >(line@));
                        }
                        out.push(line);
                        proof {
                            let rem = uid_scan(
                                snap,
                                use_range,
                                valsv,
                                lo as int,
                                hi as int,
                                i + 1,
                                args@,
                            );
                            if rem is Ok {
                                assert(out.deep_view() =~= out.deep_view().subrange(
                                    0,
                                    out.deep_view().len() - 1,
                                ).push(line@));
                                assert(out.deep_view().subrange(0, out.deep_view().len() - 1) + (
                                seq![line@] + rem->Ok_0) =~= out.deep_view() + rem->Ok_0);
                            }
                        }
                    },
                }
            }
            i += 1;
        }
        proof {
            assert(uid_scan(snap, use_range, valsv, lo as int, hi as int, i as int, args@)
                == Ok::<Seq<Seq<char>>, Error>(Seq::<Seq<char>>::empty()));
            assert(out.deep_view() + Seq::<Seq<char>>::empty() =~= out.deep_view());
        }
        Ok(out)
    }
}

/// The UTC midnight instant a SEARCH `SINCE DD-Mon-YYYY` date names,
/// in seconds since the epoch.
pub open spec fn search_target(msg: Seq<char>) -> Result<int, Error> {
    let pieces = split_spec(last_token_spec(msg, ' '), '-');
    if pieces.len() != 3 {
        Err(Error::TimeDate)
    } else if !(pieces[0].len() > 0 && all_digits(pieces[0]) && dec_val(pieces[0]) <= u64::MAX) {
        Err(Error::TimeDate)
    } else if month_of(pieces[1]) == 0 {
        Err(Error::NotAMonth)
    } else if !(pieces[2].len() > 0 && all_digits(pieces[2]) && dec_val(pieces[2]) <= u64::MAX) {
        Err(Error::TimeDate)
    } else if !(dec_val(pieces[2]) <= 9999) {
        Err(Error::TimeDate)
    } else if !valid_date(dec_val(pieces[2]), month_of(pieces[1]), dec_val(pieces[0])) {
        Err(Error::TimeDate)
    } else if dec_val(pieces[2]) < 1970 {
        // a day before the epoch: every encoded timestamp lies
        // strictly after it
        Ok(-1)
    } else {
        Ok(
            (SECS_PER_DAY as int) * epoch_days(
                dec_val(pieces[2]),
                month_of(pieces[1]),
                dec_val(pieces[0]),
            ),
        )
    }
}

/// The UIDs, in enumeration order and rendered in decimal, of the
/// entries whose encoded timestamp lies strictly after `t`.
pub open spec fn search_scan(snap: Seq<EntryV>, t: int, i: int) -> Result<Seq<Seq<char>>, Error>
    decreases snap.len() - i,
{
    if i < 0 || i >= snap.len() {
        Ok(Seq::empty())
    } else if !(valid_uid_name(snap[i].name) && dec_val(seed_int_part(snap[i].name))
        <= u64::MAX) {
        Err(Error::BadMessageFile)
    } else if seed_after(snap[i].name, t) {
        if uid_of(snap[i].name) <= u64::MAX {
            match search_scan(snap, t, i + 1) {
                Err(e) => Err(e),
                Ok(rest) => Ok(seq![dec_of(uid_of(snap[i].name) as nat)] + rest),
            }
        } else {
            Err(Error::BadMessageFile)
        }
    } else {
        search_scan(snap, t, i + 1)
    }
}

/// What a SEARCH `SINCE` answers over a snapshot.
pub open spec fn search_spec(msg: Seq<char>, snap: Seq<EntryV>) -> Result<Seq<Seq<char>>, Error> {
    match search_target(msg) {
        Err(e) => Err(e),
        Ok(t) => search_scan(snap, t, 0),
    }
}

impl UserSession {
    /// Resolve a SEARCH `SINCE DD-Mon-YYYY` over a fresh snapshot:
    /// the UIDs of the entries whose encoded timestamp lies strictly
    /// after that date's UTC midnight.
    pub fn search(&self, msg: &str, snapshot: &Vec<MailEntry>) -> (r: IMAPResult<Vec<String>>)
        ensures
            ({
                let spec_r = search_spec(msg@, snapshot.deep_view());
                &&& (r is Ok <==> spec_r is Ok)
                &&& (r is Ok ==> r->Ok_0.deep_view() == spec_r->Ok_0)
                &&& (r is Err ==> spec_r is Err && r->Err_0 == spec_r->Err_0)
            }),
    {
        let token = last_token(msg, ' ');
        let pieces = split_on_char(token, '-');
        if pieces.len() != 3 {
            return Err(Error::TimeDate);
        }
        proof {
            assert(pieces.deep_view()[0] == split_spec(last_token_spec(msg@, ' '), '-')[0]);
            assert(pieces.deep_view()[1] == split_spec(last_token_spec(msg@, ' '), '-')[1]);
            assert(pieces.deep_view()[2] == split_spec(last_token_spec(msg@, ' '), '-')[2]);
        }
        let day = match parse_u64(pieces[0].as_str()) {
            None => {
                return Err(Error::TimeDate);
            },
            Some(d) => d,
        };
        let month = match month_number(pieces[1].as_str()) {
            None => {
                return Err(Error::NotAMonth);
            },
            Some(m) => m,
        };
        let year = match parse_u64(pieces[2].as_str()) {
            None => {
                return Err(Error::TimeDate);
            },
            Some(y) => y,
        };
        if year > 9999 {
            return Err(Error::TimeDate);
        }
        let mlen = month_length(year, month);
        if day < 1 || day > mlen as u64 {
            return Err(Error::TimeDate);
        }
        let all_match: bool;
        let t_u: u64;
        if year < 1970 {
            all_match = true;
            t_u = 0;
        } else {
            let t: i64 = match ymd_midnight_epoch(year as i32, month, day as u32) {
                None => {
                    return Err(Error::TimeDate);
                },
                Some(t) => t,
            };
            proof {
                lemma_epoch_days_nonneg(year as int, month as int, day as int);
            }
            all_match = false;
            t_u = t as u64;
        }
        let ghost tgt: int = if all_match {
            -1
        } else {
            t_u as int
        };
        let ghost snap = snapshot.deep_view();
        let mut out: Vec<String> = Vec::new();
        let mut i: usize = 0;
        proof {
            assert(search_spec(msg@, snap) == search_scan(snap, tgt, 0));
            if search_scan(snap, tgt, 0) is Ok {
                assert(Seq::<Seq<char>>::empty() + search_scan(snap, tgt, 0)->Ok_0 =~= search_scan(
                    snap,
                    tgt,
                    0,
                )->Ok_0);
            }
        }
        while i < snapshot.len()
            invariant
                i <= snapshot.len(),
                snap == snapshot.deep_view(),
                tgt == (if all_match {
                    -1int
                } else {
                    t_u as int
                }),
                search_spec(msg@, snap) == search_scan(snap, tgt, 0),
                ({
                    let rem = search_scan(snap, tgt, i as int);
                    let full = search_scan(snap, tgt, 0);
                    &&& (rem is Ok ==> full is Ok && full->Ok_0 == out.deep_view() + rem->Ok_0)
                    &&& (rem is Err ==> full is Err && full->Err_0 == rem->Err_0)
                }),
            decreases snapshot.len() - i,
        {
            let entry = &snapshot[i];
            proof {
                assert(snap[i as int] == snapshot@[i as int].deep_view());
            }
            let (whole, first_frac, frac_nonzero) = match parse_seed(entry.name.as_str()) {
                Err(e) => {
                    return Err(e);
                },
                Ok(p) => p,
            };
            let after = all_match || whole > t_u || (whole == t_u && frac_nonzero);
            assert(after == seed_after(snap[i as int].name, tgt));
            if after {
                if whole > (u64::MAX - first_frac) / 10 {
                    proof {
                        lemma_scale_overflow(whole as int, first_frac as int);
                    }
                    return Err(Error::BadMessageFile);
                }
                proof {
                    lemma_scale_fits(whole as int, first_frac as int);
                }
                let uid = whole * 10 + first_frac;
                let uid_s = u64_to_string(uid);
                out.push(uid_s);
                proof {
                    let rem = search_scan(snap, tgt, i + 1);
                    if rem is Ok {
                        assert(out.deep_view() =~= out.deep_view().subrange(
                            0,
                            out.deep_view().len() - 1,
                        ).push(dec_of(uid_of(snap[i as int].name) as nat)));
                        assert(out.deep_view().subrange(0, out.deep_view().len() - 1) + (seq![
                            dec_of(uid_of(snap[i as int].name) as nat),
                        ] + rem->Ok_0) =~= out.deep_view() + rem->Ok_0);
                    }
                }
            }
            i += 1;
        }
        proof {
            assert(search_scan(snap, tgt, i as int) == Ok::<Seq<Seq<char>>, Error>(
                Seq::<Seq<char>>::empty(),
            ));
            assert(out.deep_view() + Seq::<Seq<char>>::empty() =~= out.deep_view());
        }
        Ok(out)
    }
}

/// Whether the selector holds a comma.
fn contains_comma(s: &str) -> (r: bool)
    ensures
        r == (find_from(s@, ',', 0) is Some),
{
    match find_char_from(s, ',', 0) {
        None => false,
        Some(_) => true,
    }
}

/// Whether the selector holds a colon.
fn contains_colon(s: &str) -> (r: bool)
    ensures
        r == (find_from(s@, ':', 0) is Some),
{
    match find_char_from(s, ':', 0) {
        None => false,
        Some(_) => true,
    }
}

/// UID derivation is a function of the filename alone, monotonic in
/// the encoded timestamp: of two names whose timestamps differ at the
/// scale the UID preserves (whole seconds and the first fractional
/// digit), the one encoding the earlier timestamp derives the
/// strictly smaller UID.
pub proof fn lemma_uid_monotone(n1: Seq<char>, n2: Seq<char>)
    requires
        valid_uid_name(n1),
        valid_uid_name(n2),
        dec_val(seed_int_part(n1)) < dec_val(seed_int_part(n2)) || (dec_val(seed_int_part(n1))
            == dec_val(seed_int_part(n2)) && seed_first_frac(n1) < seed_first_frac(n2)),
    ensures
        uid_of(n1) < uid_of(n2),
{
    let w1 = dec_val(seed_int_part(n1));
    let w2 = dec_val(seed_int_part(n2));
    assert(0 <= seed_first_frac(n1) <= 9);
    assert(0 <= seed_first_frac(n2) <= 9);
    if w1 < w2 {
        assert(w1 * 10 + 10 <= w2 * 10) by (nonlinear_arith)
            requires
                w1 < w2,
        ;
    }
}

/// Two names whose encoded timestamps differ at the preserved scale
/// derive distinct UIDs.
pub proof fn lemma_uid_injective(n1: Seq<char>, n2: Seq<char>)
    requires
        valid_uid_name(n1),
        valid_uid_name(n2),
        dec_val(seed_int_part(n1)) != dec_val(seed_int_part(n2)) || seed_first_frac(n1)
            != seed_first_frac(n2),
    ensures
        uid_of(n1) != uid_of(n2),
{
    if dec_val(seed_int_part(n1)) < dec_val(seed_int_part(n2)) || (dec_val(seed_int_part(n1))
        == dec_val(seed_int_part(n2)) && seed_first_frac(n1) < seed_first_frac(n2)) {
        lemma_uid_monotone(n1, n2);
    } else {
        lemma_uid_monotone(n2, n1);
    }
}

} // verus!
