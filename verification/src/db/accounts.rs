//! Accounts, the devices linked to them, and what is stored for them.

use vstd::prelude::*;

use crate::clock;
use crate::clock::{days_between, parse_day, parse_rfc3339};
use crate::crypto;
use crate::crypto::{decrypt, encrypt_under, random_nonce, sha256_digest};
use crate::db::sql;
use crate::db::sql::tag_error;
use crate::errors::DbFailure;
use crate::models::Stamp;
use crate::tally;
use crate::tally::{count_labels, LabelCount};
use crate::text;
use crate::text::{join, text_at_most, text_eq};

verus! {

/// A device counts as active for so many days after it was last seen.
pub const DEVICE_ACTIVE_WINDOW_DAYS: i64 = 30;

// ---------------------------------------------------------------------------
// Devices
// ---------------------------------------------------------------------------

/// An account linked to a device.
#[derive(Debug)]
pub struct DeviceAccountLink {
    pub account_id: i32,
    pub name: String,
    pub linked_at: String,
    pub last_seen_at: String,
}

/// A device: all links of one owner token.
#[derive(Debug)]
pub struct DeviceSession {
    pub id: String,
    pub is_current: bool,
    pub first_seen_at: String,
    pub last_seen_at: String,
    pub active: bool,
    pub accounts: Vec<DeviceAccountLink>,
}

/// A row of the link table with the account's name.
#[derive(Debug)]
pub struct LinkRow {
    pub token: String,
    pub account_id: i32,
    pub name: String,
    pub linked_at: String,
    pub last_seen_at: String,
}

/// A lower-case hexadecimal digit.
pub open spec fn hex_digit(d: int) -> char {
    if d < 10 {
        (48 + d) as char
    } else {
        (87 + d) as char
    }
}

/// Bytes in lower-case hexadecimal, two digits each.
pub open spec fn hex_text(bytes: Seq<u8>) -> Seq<char>
    decreases bytes.len(),
{
    if bytes.len() == 0 {
        Seq::empty()
    } else {
        hex_text(bytes.drop_last()).push(hex_digit(bytes.last() as int / 16)).push(
            hex_digit(bytes.last() as int % 16),
        )
    }
}

fn push_hex_digit(s: &mut String, d: u8)
    requires
        d < 16,
    ensures
        final(s)@ == old(s)@.push(hex_digit(d as int)),
{
    let b: u8 = if d < 10 {
        48 + d
    } else {
        87 + d
    };
    s.push(b as char);
}

pub fn hex(bytes: &Vec<u8>) -> (r: String)
    ensures
        r@ == hex_text(bytes@),
{
    let mut s = String::new();
    let mut i: usize = 0;
    while i < bytes.len()
        invariant
            i <= bytes.len(),
            s@ == hex_text(bytes@.take(i as int)),
        decreases bytes.len() - i,
    {
        let b: u8 = bytes[i];
        push_hex_digit(&mut s, b / 16);
        push_hex_digit(&mut s, b % 16);
        proof {
            let t = bytes@.take(i + 1);
            assert(t.drop_last() =~= bytes@.take(i as int));
            assert(t.last() == b);
        }
        i += 1;
    }
    proof {
        assert(bytes@.take(bytes@.len() as int) =~= bytes@);
    }
    s
}

/// The public id of a device: the digest of its token. The token itself is
/// never shown.
pub open spec fn device_id(token: Seq<char>) -> Seq<char> {
    hex_text(crypto::sha256(vstd::utf8::encode_utf8(token)))
}

fn id_of_token(token: &str) -> (r: String)
    ensures
        r@ == device_id(token@),
{
    hex(&sha256_digest(token.as_bytes()))
}

/// The whole days since a stored time, as far as it can be read.
pub open spec fn days_since(raw: Seq<char>, now: Stamp) -> int {
    match clock::rfc3339_instant(raw) {
        Ok(t) => match clock::days_apart(now.secs, now.nanos, t.0, t.1) {
            Some(d) => d as int,
            None => i64::MAX as int,
        },
        Err(_) => i64::MAX as int,
    }
}

/// The whole days since a stored time; more than any where it cannot be read.
pub fn days_since_rfc3339(raw: &str, now: Stamp) -> (r: i64)
    ensures
        r == days_since(raw@, now),
{
    match parse_rfc3339(raw) {
        Ok(t) => match days_between(now, t) {
            Some(d) => d,
            None => i64::MAX,
        },
        Err(_) => i64::MAX,
    }
}

/// The rows of one token, in order.
pub open spec fn rows_of(rows: Seq<LinkRow>, token: Seq<char>) -> Seq<LinkRow>
    decreases rows.len(),
{
    if rows.len() == 0 {
        Seq::empty()
    } else {
        let rest = rows_of(rows.drop_last(), token);
        if rows.last().token@ == token {
            rest.push(rows.last())
        } else {
            rest
        }
    }
}

/// The tokens of some rows, each once, in order of first appearance.
pub open spec fn tokens_of(rows: Seq<LinkRow>) -> Seq<Seq<char>>
    decreases rows.len(),
{
    if rows.len() == 0 {
        Seq::empty()
    } else {
        let rest = tokens_of(rows.drop_last());
        if rest.contains(rows.last().token@) {
            rest
        } else {
            rest.push(rows.last().token@)
        }
    }
}

/// An account link as its row has it.
pub open spec fn is_link_of(l: DeviceAccountLink, r: LinkRow) -> bool {
    &&& l.account_id == r.account_id
    &&& l.name@ == r.name@
    &&& l.linked_at@ == r.linked_at@
    &&& l.last_seen_at@ == r.last_seen_at@
}

pub open spec fn are_links_of(links: Seq<DeviceAccountLink>, rows: Seq<LinkRow>) -> bool {
    &&& links.len() == rows.len()
    &&& forall|k: int| 0 <= k < rows.len() ==> is_link_of(#[trigger] links[k], rows[k])
}

/// The earliest time of link, in text order.
pub open spec fn earliest_link(rows: Seq<LinkRow>) -> Seq<char>
    decreases rows.len(),
{
    if rows.len() <= 1 {
        rows[0].linked_at@
    } else {
        let e = earliest_link(rows.drop_last());
        if text::text_le(e, rows.last().linked_at@) {
            e
        } else {
            rows.last().linked_at@
        }
    }
}

/// The latest time of access, in text order.
pub open spec fn latest_access(rows: Seq<LinkRow>) -> Seq<char>
    decreases rows.len(),
{
    if rows.len() <= 1 {
        rows[0].last_seen_at@
    } else {
        let e = latest_access(rows.drop_last());
        if text::text_le(rows.last().last_seen_at@, e) {
            e
        } else {
            rows.last().last_seen_at@
        }
    }
}

/// `d` sums up the rows of a token; whether it is active goes by its first row.
pub open spec fn is_device(
    d: DeviceSession,
    rows: Seq<LinkRow>,
    token: Seq<char>,
    owner: Seq<char>,
    now: Stamp,
) -> bool {
    &&& rows.len() > 0
    &&& d.id@ == device_id(token)
    &&& d.is_current == (token == owner)
    &&& d.first_seen_at@ == earliest_link(rows)
    &&& d.last_seen_at@ == latest_access(rows)
    &&& d.active == (days_since(rows[0].last_seen_at@, now) <= DEVICE_ACTIVE_WINDOW_DAYS)
    &&& are_links_of(d.accounts@, rows)
}

/// `r` has one device for each token, in order of first appearance.
pub open spec fn are_devices(
    r: Seq<DeviceSession>,
    rows: Seq<LinkRow>,
    owner: Seq<char>,
    now: Stamp,
) -> bool {
    &&& r.len() == tokens_of(rows).len()
    &&& forall|k: int|
        0 <= k < r.len() ==> is_device(
            #[trigger] r[k],
            rows_of(rows, tokens_of(rows)[k]),
            tokens_of(rows)[k],
            owner,
            now,
        )
}

fn link_of(row: &LinkRow) -> (r: DeviceAccountLink)
    ensures
        is_link_of(r, *row),
{
    DeviceAccountLink {
        account_id: row.account_id,
        name: row.name.clone(),
        linked_at: row.linked_at.clone(),
        last_seen_at: row.last_seen_at.clone(),
    }
}

/// The device of the token that row `first` brings up.
fn gather_device(rows: &Vec<LinkRow>, first: usize, owner: &str, now: Stamp) -> (d: DeviceSession)
    requires
        first < rows.len(),
        forall|k: int|
            0 <= k < first ==> (#[trigger] rows@[k]).token@ != rows@[first as int].token@,
    ensures
        is_device(
            d,
            rows_of(rows@, rows@[first as int].token@),
            rows@[first as int].token@,
            owner@,
            now,
        ),
{
    let token = rows[first].token.as_str();
    let mut accounts: Vec<DeviceAccountLink> = Vec::new();
    accounts.push(link_of(&rows[first]));
    let mut first_seen = rows[first].linked_at.clone();
    let mut last_seen = rows[first].last_seen_at.clone();
    let active = days_since_rfc3339(rows[first].last_seen_at.as_str(), now)
        <= DEVICE_ACTIVE_WINDOW_DAYS;
    let mut i: usize = first + 1;
    proof {
        lemma_no_rows(rows@.take(first as int), token@);
        let t = rows@.take(first + 1);
        assert(t.drop_last() =~= rows@.take(first as int));
        assert(rows_of(t, token@) =~= seq![rows@[first as int]]);
    }
    while i < rows.len()
        invariant
            first < i <= rows.len(),
            token@ == rows@[first as int].token@,
            rows_of(rows@.take(i as int), token@).len() > 0,
            rows_of(rows@.take(i as int), token@)[0] == rows@[first as int],
            are_links_of(accounts@, rows_of(rows@.take(i as int), token@)),
            first_seen@ == earliest_link(rows_of(rows@.take(i as int), token@)),
            last_seen@ == latest_access(rows_of(rows@.take(i as int), token@)),
        decreases rows.len() - i,
    {
        let ghost a = rows_of(rows@.take(i as int), token@);
        let ghost b = rows_of(rows@.take(i + 1), token@);
        proof {
            let t = rows@.take(i + 1);
            assert(t.drop_last() =~= rows@.take(i as int));
            assert(t.last() == rows@[i as int]);
        }
        let row = &rows[i];
        if text_eq(row.token.as_str(), token) {
            proof {
                assert(b == a.push(rows@[i as int]));
                assert(b.drop_last() =~= a);
                assert(b.last() == rows@[i as int]);
            }
            if !text_at_most(first_seen.as_str(), row.linked_at.as_str()) {
                first_seen = row.linked_at.clone();
            }
            if !text_at_most(row.last_seen_at.as_str(), last_seen.as_str()) {
                last_seen = row.last_seen_at.clone();
            }
            accounts.push(link_of(row));
        }
        i += 1;
    }
    proof {
        assert(rows@.take(rows@.len() as int) =~= rows@);
    }
    DeviceSession {
        id: id_of_token(token),
        is_current: text_eq(token, owner),
        first_seen_at: first_seen,
        last_seen_at: last_seen,
        active,
        accounts,
    }
}

proof fn lemma_no_rows(rows: Seq<LinkRow>, token: Seq<char>)
    requires
        forall|k: int| 0 <= k < rows.len() ==> (#[trigger] rows[k]).token@ != token,
    ensures
        rows_of(rows, token).len() == 0,
    decreases rows.len(),
{
    if rows.len() > 0 {
        assert(rows[rows.len() - 1].token@ != token);
        assert forall|k: int| 0 <= k < rows.drop_last().len() implies (
        #[trigger] rows.drop_last()[k]).token@ != token by {
            assert(rows[k].token@ != token);
        }
        lemma_no_rows(rows.drop_last(), token);
    }
}

proof fn lemma_token_known(rows: Seq<LinkRow>, k: int)
    requires
        0 <= k < rows.len(),
    ensures
        tokens_of(rows).contains(rows[k].token@),
    decreases rows.len(),
{
    let rest = tokens_of(rows.drop_last());
    let all = tokens_of(rows);
    if k == rows.len() - 1 {
        if !rest.contains(rows.last().token@) {
            assert(all[all.len() - 1] == rows[k].token@);
        }
    } else {
        lemma_token_known(rows.drop_last(), k);
        assert(rest.contains(rows[k].token@));
        let j = choose|j: int| 0 <= j < rest.len() && rest[j] == rows[k].token@;
        assert(all[j] == rows[k].token@);
    }
}

proof fn lemma_token_from_row(rows: Seq<LinkRow>, t: Seq<char>)
    requires
        tokens_of(rows).contains(t),
    ensures
        exists|k: int| 0 <= k < rows.len() && (#[trigger] rows[k]).token@ == t,
    decreases rows.len(),
{
    if rows.len() > 0 {
        let rest = tokens_of(rows.drop_last());
        if rest.contains(t) {
            lemma_token_from_row(rows.drop_last(), t);
            let k = choose|k: int|
                0 <= k < rows.drop_last().len() && (#[trigger] rows.drop_last()[k]).token@ == t;
            assert(rows[k].token@ == t);
        } else {
            let all = tokens_of(rows);
            let j = choose|j: int| 0 <= j < all.len() && all[j] == t;
            if j < rest.len() {
                assert(rest[j] == t);
            }
            assert(rows[rows.len() - 1].token@ == t);
        }
    }
}

/// The devices that share an account with the owner, from the links of those
/// accounts.
pub fn list_device_sessions(rows: &Vec<LinkRow>, owner_token: &str, now: Stamp) -> (r: Vec<
    DeviceSession,
>)
    ensures
        are_devices(r@, rows@, owner_token@, now),
{
    let mut out: Vec<DeviceSession> = Vec::new();
    let mut seen: Vec<String> = Vec::new();
    let mut i: usize = 0;
    proof {
        assert(rows@.take(0) =~= Seq::<LinkRow>::empty());
        assert(text::views(seen@) =~= tokens_of(rows@.take(0)));
    }
    while i < rows.len()
        invariant
            i <= rows.len(),
            text::views(seen@) == tokens_of(rows@.take(i as int)),
            out@.len() == seen@.len(),
            forall|k: int|
                0 <= k < out@.len() ==> is_device(
                    #[trigger] out@[k],
                    rows_of(rows@, tokens_of(rows@.take(i as int))[k]),
                    tokens_of(rows@.take(i as int))[k],
                    owner_token@,
                    now,
                ),
        decreases rows.len() - i,
    {
        let ghost a = tokens_of(rows@.take(i as int));
        let ghost before = seen@;
        proof {
            let t = rows@.take(i + 1);
            assert(t.drop_last() =~= rows@.take(i as int));
            assert(t.last() == rows@[i as int]);
        }
        if !text::contains_text(&seen, rows[i].token.as_str()) {
            proof {
                assert forall|k: int| 0 <= k < i implies (#[trigger] rows@[k]).token@
                    != rows@[i as int].token@ by {
                    lemma_token_known(rows@.take(i as int), k);
                    assert(rows@.take(i as int)[k] == rows@[k]);
                }
            }
            let d = gather_device(rows, i, owner_token, now);
            out.push(d);
            seen.push(rows[i].token.clone());
            proof {
                assert(text::views(seen@) =~= text::views(before).push(rows@[i as int].token@));
            }
        }
        i += 1;
    }
    proof {
        assert(rows@.take(rows@.len() as int) =~= rows@);
    }
    out
}

/// The first of some tokens, other than the owner's, with the given public id.
pub open spec fn is_token_with_id(
    tokens: Seq<String>,
    owner: Seq<char>,
    id: Seq<char>,
    k: int,
) -> bool {
    &&& 0 <= k < tokens.len()
    &&& tokens[k]@ != owner
    &&& device_id(tokens[k]@) == id
}

/// The token of a device, other than the owner's own, by its public id.
pub fn find_device_token_by_id(tokens: &Vec<String>, owner_token: &str, id: &str) -> (r: Option<
    String,
>)
    ensures
        match r {
            Some(t) => exists|k: int|
                {
                    &&& #[trigger] is_token_with_id(tokens@, owner_token@, id@, k)
                    &&& t@ == tokens@[k]@
                    &&& forall|j: int|
                        0 <= j < k ==> !(#[trigger] is_token_with_id(
                            tokens@,
                            owner_token@,
                            id@,
                            j,
                        ))
                },
            None => forall|j: int|
                !(#[trigger] is_token_with_id(tokens@, owner_token@, id@, j)),
        },
{
    let mut i: usize = 0;
    while i < tokens.len()
        invariant
            i <= tokens.len(),
            forall|j: int|
                0 <= j < i ==> !(#[trigger] is_token_with_id(tokens@, owner_token@, id@, j)),
        decreases tokens.len() - i,
    {
        if !text_eq(tokens[i].as_str(), owner_token) && text_eq(
            id_of_token(tokens[i].as_str()).as_str(),
            id,
        ) {
            proof {
                assert(is_token_with_id(tokens@, owner_token@, id@, i as int));
            }
            return Some(tokens[i].clone());
        }
        i += 1;
    }
    None
}

/// Every device that is listed, other than the owner's own, is found again under
/// its public id.
pub proof fn law_listed_devices_are_found(
    r: Seq<DeviceSession>,
    rows: Seq<LinkRow>,
    tokens: Seq<String>,
    owner: Seq<char>,
    now: Stamp,
    k: int,
)
    requires
        are_devices(r, rows, owner, now),
        0 <= k < r.len(),
        !r[k].is_current,
        forall|i: int| 0 <= i < rows.len() ==> text::views(tokens).contains((#[trigger] rows[i]).token@),
    ensures
        exists|j: int| #[trigger] is_token_with_id(tokens, owner, r[k].id@, j),
{
    let t = tokens_of(rows)[k];
    assert(is_device(r[k], rows_of(rows, t), t, owner, now));
    assert(tokens_of(rows).contains(t));
    lemma_token_from_row(rows, t);
    let i = choose|i: int| 0 <= i < rows.len() && (#[trigger] rows[i]).token@ == t;
    let j = choose|j: int| 0 <= j < text::views(tokens).len() && text::views(tokens)[j] == t;
    assert(is_token_with_id(tokens, owner, r[k].id@, j));
}

// ---------------------------------------------------------------------------
// Visits
// ---------------------------------------------------------------------------

/// What a visit does to the visit record of an account.
#[derive(Clone, Copy, Debug, PartialEq, Eq, Structural)]
pub enum VisitUpdate {
    /// The account has no record yet: a streak of one, one visit in all.
    First { visit_streak: i32, total_visits_30d: i32 },
    /// Another visit of the same day: the record stays as it is.
    SameDay { visit_streak: i32, total_visits_30d: i32 },
    /// The first visit of a new day, so many days after the last one.
    Advance { visit_streak: i32, total_visits_30d: i32, gap_days: i64 },
}

/// A stored visit record: the day, the streak and the visits.
#[derive(Debug)]
pub struct VisitRecord {
    pub last_visit_date: String,
    pub visit_streak: i32,
    pub total_visits_30d: i32,
}

/// The update of a record whose day parses to `last`, on day `current`.
pub open spec fn visit_advance(streak: i32, total: i32, last: i32, current: i32) -> VisitUpdate {
    VisitUpdate::Advance {
        visit_streak: if current - last == 1 {
            (streak + 1) as i32
        } else {
            0
        },
        total_visits_30d: (total + 1) as i32,
        gap_days: (current - last) as i64,
    }
}

/// The update after the days were read.
pub fn advance_visits(streak: i32, total: i32, last: i32, current: i32) -> (r: VisitUpdate)
    requires
        streak < i32::MAX,
        total < i32::MAX,
    ensures
        r == visit_advance(streak, total, last, current),
{
    let gap: i64 = current as i64 - last as i64;
    VisitUpdate::Advance {
        visit_streak: if gap == 1 {
            streak + 1
        } else {
            0
        },
        total_visits_30d: total + 1,
        gap_days: gap,
    }
}

/// What a visit on the day `today` does. A visit of the very next day prolongs
/// the streak, a later one ends it.
pub fn update_visit_tracker(existing: Option<&VisitRecord>, today: &str) -> (r: Result<
    VisitUpdate,
    String,
>)
    requires
        existing matches Some(v) ==> v.last_visit_date@ == today@ || (v.visit_streak < i32::MAX
            && v.total_visits_30d < i32::MAX),
    ensures
        match existing {
            None => r == Ok::<VisitUpdate, String>(
                (VisitUpdate::First { visit_streak: 1, total_visits_30d: 1 }),
            ),
            Some(v) => if v.last_visit_date@ == today@ {
                r == Ok::<VisitUpdate, String>(
                    (VisitUpdate::SameDay {
                        visit_streak: v.visit_streak,
                        total_visits_30d: v.total_visits_30d,
                    }),
                )
            } else {
                match (clock::calendar_day(v.last_visit_date@), clock::calendar_day(today@)) {
                    (Err(e), _) => r matches Err(m) && m@ == sql::tagged(
                        "Failed to parse last_visit_date"@,
                        e,
                    ),
                    (Ok(_), Err(e)) => r matches Err(m) && m@ == sql::tagged(
                        "Failed to parse today"@,
                        e,
                    ),
                    (Ok(last), Ok(current)) => r == Ok::<VisitUpdate, String>(
                        visit_advance(v.visit_streak, v.total_visits_30d, last, current),
                    ),
                }
            },
        },
{
    match existing {
        None => Ok(VisitUpdate::First { visit_streak: 1, total_visits_30d: 1 }),
        Some(v) => {
            if text_eq(v.last_visit_date.as_str(), today) {
                return Ok(
                    VisitUpdate::SameDay {
                        visit_streak: v.visit_streak,
                        total_visits_30d: v.total_visits_30d,
                    },
                );
            }
            let last: i32 = match parse_day(v.last_visit_date.as_str()) {
                Ok(d) => d,
                Err(e) => {
                    return Err(tag_error("Failed to parse last_visit_date", e.as_str()));
                },
            };
            let current: i32 = match parse_day(today) {
                Ok(d) => d,
                Err(e) => {
                    return Err(tag_error("Failed to parse today", e.as_str()));
                },
            };
            Ok(advance_visits(v.visit_streak, v.total_visits_30d, last, current))
        },
    }
}

/// A streak goes on only from one day to the next, and counts that day.
pub proof fn law_streak_needs_consecutive_days(streak: i32, total: i32, last: i32, current: i32)
    requires
        0 <= streak < i32::MAX,
        total < i32::MAX,
    ensures
        visit_advance(streak, total, last, current) matches VisitUpdate::Advance {
            visit_streak,
            total_visits_30d,
            gap_days,
        } && (visit_streak > 0 <==> gap_days == 1) && (visit_streak > 0 ==> visit_streak == streak
            + 1) && total_visits_30d == total + 1 && gap_days == current - last,
{
}

/// The error of a visit record that could not be read.
pub fn get_visit_stats(f: DbFailure) -> (r: String)
    ensures
        match f {
            DbFailure::NoRows => r@
                == "Visit tracker row not found for account — call update_visit_tracker first"@,
            DbFailure::Other(e) => r@ == sql::tagged("get_visit_stats"@, e@),
        },
{
    match f {
        DbFailure::NoRows => String::from_str(
            "Visit tracker row not found for account — call update_visit_tracker first",
        ),
        DbFailure::Other(e) => tag_error("get_visit_stats", e.as_str()),
    }
}

// ---------------------------------------------------------------------------
// Blacklists and lookups
// ---------------------------------------------------------------------------

/// The configured blacklist as one text.
pub fn default_blacklist_text(tags: &Vec<String>) -> (r: String)
    ensures
        r@ == text::joined(text::views(tags@), "\n"@),
{
    join(tags, "\n")
}

/// The blacklist to store: the given one, or the configured one where none is.
pub open spec fn resolved_blacklist(given: Seq<char>, defaults: Seq<String>) -> Seq<char> {
    if given.len() == 0 {
        text::joined(text::views(defaults), "\n"@)
    } else {
        given
    }
}

pub fn resolve_blacklist(given: &str, defaults: &Vec<String>) -> (r: String)
    ensures
        r@ == resolved_blacklist(given@, defaults@),
{
    if given.is_empty() {
        default_blacklist_text(defaults)
    } else {
        String::from_str(given)
    }
}

/// What an update of a device's blacklist does: the text to store where it
/// differs from the stored one, nothing where it does not.
pub fn update_device_blacklist(
    stored: Option<&str>,
    given: &str,
    defaults: &Vec<String>,
) -> (r: Result<Option<String>, String>)
    ensures
        match stored {
            None => r matches Err(m) && m@ == "No account found for this device token"@,
            Some(cur) => match r {
                Ok(Some(t)) => t@ == resolved_blacklist(given@, defaults@) && t@ != cur@,
                Ok(None) => cur@ == resolved_blacklist(given@, defaults@),
                Err(_) => false,
            },
        },
{
    match stored {
        None => Err(String::from_str("No account found for this device token")),
        Some(cur) => {
            let resolved = resolve_blacklist(given, defaults);
            if text_eq(cur, resolved.as_str()) {
                Ok(None)
            } else {
                Ok(Some(resolved))
            }
        },
    }
}

/// An account as its owner sees it.
#[derive(Debug)]
pub struct TruncatedAccount {
    pub id: i32,
    pub name: String,
    pub blacklist: String,
}

/// The account that a lookup found.
pub open spec fn is_first_account(
    r: Result<TruncatedAccount, String>,
    found: Seq<TruncatedAccount>,
) -> bool {
    if found.len() > 0 {
        r == Ok::<TruncatedAccount, String>(found[0])
    } else {
        r matches Err(m) && m@ == "No account found"@
    }
}

/// The account of a lookup by name, from the rows it found.
pub fn get_account_by_name(found: Vec<TruncatedAccount>) -> (r: Result<TruncatedAccount, String>)
    ensures
        is_first_account(r, found@),
{
    get_account_by_id(found)
}

/// The account of a lookup by id, from the rows it found.
pub fn get_account_by_id(found: Vec<TruncatedAccount>) -> (r: Result<TruncatedAccount, String>)
    ensures
        is_first_account(r, found@),
{
    let mut found = found;
    if found.len() == 0 {
        Err(String::from_str("No account found"))
    } else {
        Ok(found.remove(0))
    }
}

/// Whether the device may act for the account, given whether it is linked.
pub fn require_device_link(linked: Result<bool, String>) -> (r: Result<(), String>)
    ensures
        match linked {
            Err(e) => r matches Err(m) && m@ == sql::tagged(
                "Failed to verify account ownership"@,
                e@,
            ),
            Ok(b) => if b {
                r is Ok
            } else {
                r matches Err(m) && m@ == "Account is not linked to this device token"@
            },
        },
{
    match linked {
        Err(e) => Err(tag_error("Failed to verify account ownership", e.as_str())),
        Ok(true) => Ok(()),
        Ok(false) => Err(String::from_str("Account is not linked to this device token")),
    }
}

// ---------------------------------------------------------------------------
// Removal
// ---------------------------------------------------------------------------

/// Whether the account goes with its last link.
pub fn delete_device_link(removed: usize, remaining: i64) -> (r: bool)
    ensures
        r == (removed > 0 && remaining == 0),
{
    removed > 0 && remaining == 0
}

/// The batch size of the removal: at least a thousand rows.
pub fn removal_batch_size(configured: usize) -> (r: usize)
    ensures
        r == (if configured > 1000 {
            configured
        } else {
            1000
        }),
{
    if configured > 1000 {
        configured
    } else {
        1000
    }
}

/// The statements that remove what is left of an account, in order.
pub open spec fn removal_statements() -> Seq<Seq<char>> {
    seq![
        "DELETE FROM accounts_post WHERE account_id = ?1"@,
        "DELETE FROM account_tag_counts WHERE account_id = ?1"@,
        "DELETE FROM account_rating_profile WHERE account_id = ?1"@,
        "DELETE FROM account_media_profile WHERE account_id = ?1"@,
        "DELETE FROM account_quality_profile WHERE account_id = ?1"@,
        "DELETE FROM account_tag_feedback WHERE account_id = ?1"@,
        "DELETE FROM accounts WHERE id = ?1"@,
    ]
}

pub fn removal_sql() -> (r: Vec<String>)
    ensures
        text::views(r@) == removal_statements(),
{
    let mut v: Vec<String> = Vec::new();
    v.push(String::from_str("DELETE FROM accounts_post WHERE account_id = ?1"));
    v.push(String::from_str("DELETE FROM account_tag_counts WHERE account_id = ?1"));
    v.push(String::from_str("DELETE FROM account_rating_profile WHERE account_id = ?1"));
    v.push(String::from_str("DELETE FROM account_media_profile WHERE account_id = ?1"));
    v.push(String::from_str("DELETE FROM account_quality_profile WHERE account_id = ?1"));
    v.push(String::from_str("DELETE FROM account_tag_feedback WHERE account_id = ?1"));
    v.push(String::from_str("DELETE FROM accounts WHERE id = ?1"));
    proof {
        assert(text::views(v@) =~= removal_statements());
    }
    v
}

/// How many accounts without links and posts were removed.
pub fn cleanup_orphan_accounts(deleted: Result<usize, String>) -> (r: Result<i64, String>)
    requires
        deleted matches Ok(n) ==> n <= i64::MAX,
    ensures
        match deleted {
            Ok(n) => r == Ok::<i64, String>(n as i64),
            Err(e) => r matches Err(m) && m@ == sql::tagged("delete orphan accounts"@, e@),
        },
{
    match deleted {
        Ok(n) => Ok(n as i64),
        Err(e) => Err(tag_error("delete orphan accounts", e.as_str())),
    }
}

// ---------------------------------------------------------------------------
// Settings
// ---------------------------------------------------------------------------

/// A tag that an account prefers. The weight travels as the bit pattern of its
/// floating-point value.
#[derive(Debug)]
pub struct PreferredTag {
    pub tag: String,
    pub group: String,
    pub weight_bits: u64,
}

#[derive(Debug)]
pub struct AccountFeedSettings {
    pub blacklist: Option<String>,
    pub preferred_tags: Vec<PreferredTag>,
    pub experiment_bucket: Option<String>,
}

/// The settings of an account's feed, given what the database answered: whether
/// the device is linked, its blacklist, the preferred tags and the bucket. An
/// empty blacklist counts as none.
pub fn get_account_feed_settings(
    link: Result<(), DbFailure>,
    blacklist: Result<String, String>,
    preferred: Result<Vec<PreferredTag>, String>,
    bucket: Option<String>,
) -> (r: Result<AccountFeedSettings, String>)
    ensures
        match (link, blacklist, preferred) {
            (Err(DbFailure::NoRows), _, _) => r matches Err(m) && m@
                == "No account found for this device token"@,
            (Err(DbFailure::Other(e)), _, _) => r matches Err(m) && m@ == sql::tagged(
                "Failed to verify account access"@,
                e@,
            ),
            (Ok(_), Err(e), _) => r matches Err(m) && m@ == sql::tagged(
                "Failed to read blacklist"@,
                e@,
            ),
            (Ok(_), Ok(_), Err(e)) => r matches Err(m) && m@ == e@,
            (Ok(_), Ok(b), Ok(p)) => r matches Ok(s) && s.blacklist == (if b@.len() == 0 {
                None
            } else {
                Some(b)
            }) && s.preferred_tags == p && s.experiment_bucket == bucket,
        },
{
    match link {
        Err(DbFailure::NoRows) => {
            return Err(String::from_str("No account found for this device token"));
        },
        Err(DbFailure::Other(e)) => {
            return Err(tag_error("Failed to verify account access", e.as_str()));
        },
        Ok(_) => {},
    }
    let b: String = match blacklist {
        Ok(b) => b,
        Err(e) => {
            return Err(tag_error("Failed to read blacklist", e.as_str()));
        },
    };
    let preferred_tags: Vec<PreferredTag> = match preferred {
        Ok(p) => p,
        Err(e) => {
            return Err(e);
        },
    };
    let blacklist: Option<String> = if b.as_str().is_empty() {
        None
    } else {
        Some(b)
    };
    Ok(AccountFeedSettings { blacklist, preferred_tags, experiment_bucket: bucket })
}

/// The bucket of an account, given what the database answered.
pub fn get_account_experiment_bucket(row: Result<Option<String>, DbFailure>) -> (r: Result<
    Option<String>,
    String,
>)
    ensures
        match row {
            Ok(b) => r == Ok::<Option<String>, String>(b),
            Err(DbFailure::NoRows) => r == Ok::<Option<String>, String>(None),
            Err(DbFailure::Other(e)) => r matches Err(m) && m@ == sql::tagged(
                "get_account_experiment_bucket"@,
                e@,
            ),
        },
{
    match row {
        Ok(b) => Ok(b),
        Err(DbFailure::NoRows) => Ok(None),
        Err(DbFailure::Other(e)) => Err(tag_error("get_account_experiment_bucket", e.as_str())),
    }
}

/// The labels of some buckets: `none` where an account is in none.
pub open spec fn bucket_labels(buckets: Seq<Option<String>>) -> Seq<Seq<char>> {
    buckets.map_values(
        |b: Option<String>|
            match b {
                Some(s) => s@,
                None => "none"@,
            },
    )
}

/// How many accounts are in each bucket.
pub fn count_accounts_by_bucket(buckets: &Vec<Option<String>>) -> (r: Vec<LabelCount>)
    requires
        buckets.len() <= i64::MAX,
    ensures
        tally::are_label_counts(r@, bucket_labels(buckets@)),
{
    let mut labels: Vec<String> = Vec::new();
    let mut i: usize = 0;
    proof {
        assert(text::views(labels@) =~= bucket_labels(buckets@.take(0)));
    }
    while i < buckets.len()
        invariant
            i <= buckets.len(),
            labels@.len() == i,
            text::views(labels@) == bucket_labels(buckets@.take(i as int)),
        decreases buckets.len() - i,
    {
        let ghost before = labels@;
        let label = match &buckets[i] {
            Some(s) => s.clone(),
            None => String::from_str("none"),
        };
        labels.push(label);
        proof {
            let t = buckets@.take(i as int);
            assert(buckets@.take(i + 1) =~= t.push(buckets@[i as int]));
            assert(bucket_labels(t.push(buckets@[i as int])) =~= bucket_labels(t).push(label@));
            assert(text::views(labels@) =~= text::views(before).push(label@));
        }
        i += 1;
    }
    proof {
        assert(buckets@.take(buckets@.len() as int) =~= buckets@);
    }
    count_labels(&labels)
}

/// Accounts that were filled up before this time are due again.
pub fn backfill_threshold(now_secs: i64, cooldown_secs: u64) -> (r: i64)
    requires
        cooldown_secs <= i64::MAX,
        now_secs - cooldown_secs >= i64::MIN,
    ensures
        r == now_secs - cooldown_secs,
{
    now_secs - cooldown_secs as i64
}

// ---------------------------------------------------------------------------
// Keys
// ---------------------------------------------------------------------------

/// The text of the error that `String::from_utf8` gives for bytes that are not
/// UTF-8.
pub uninterp spec fn utf8_error(bytes: Seq<u8>) -> Seq<char>;

/// Calls `String::from_utf8`. The result is the text of the bytes where they are
/// UTF-8, else the text of the error.
#[verifier::external_body]
fn text_of_utf8(bytes: Vec<u8>) -> (r: Result<String, String>)
    ensures
        match r {
            Ok(s) => vstd::utf8::valid_utf8(bytes@) && s@ == vstd::utf8::decode_utf8(bytes@),
            Err(e) => !vstd::utf8::valid_utf8(bytes@) && e@ == utf8_error(bytes@),
        },
{
    String::from_utf8(bytes).map_err(|e| format!("{e}"))
}

/// The text to store for a key under the nonce that the random source gave, if it
/// gave one.
pub open spec fn key_stored(
    key: Seq<char>,
    nonce: Option<Seq<u8>>,
    secret: Seq<char>,
    debug: bool,
) -> Result<Seq<char>, Seq<char>> {
    match crypto::encrypted_under(vstd::utf8::encode_utf8(key), nonce, secret, debug) {
        Ok(t) => Ok(t),
        Err(_) => Err("Failed to encrypt e621 key"@),
    }
}

/// The text to store for a key, given what the random source gave for a nonce.
pub fn key_to_store(key: &str, nonce: Option<Vec<u8>>, secret: &str, debug: bool) -> (r: Result<
    String,
    String,
>)
    requires
        crypto::is_nonce(crypto::nonce_view(nonce)),
    ensures
        crypto::text_view(r) == key_stored(key@, crypto::nonce_view(nonce), secret@, debug),
        r is Ok <==> nonce is Some && (secret@.len() > 0 || debug) && vstd::utf8::encode_utf8(
            key@,
        ).len() <= crypto::MAX_PLAINTEXT,
        r matches Ok(t) ==> crypto::decrypted(t@, secret@, debug) == crypto::good(
            vstd::utf8::encode_utf8(key@),
        ),
{
    match encrypt_under(key.as_bytes(), nonce, secret, debug) {
        Ok(t) => Ok(t),
        Err(_) => Err(String::from_str("Failed to encrypt e621 key")),
    }
}

/// The text to store for a key, under a fresh random nonce. Whether the system
/// gives a nonce is not known beforehand.
pub fn set_account_e621_key(key: &str, secret: &str, debug: bool) -> (r: Result<String, String>)
    ensures
        exists|nonce: Option<Seq<u8>>|
            crypto::is_nonce(nonce) && crypto::text_view(r) == #[trigger] key_stored(
                key@,
                nonce,
                secret@,
                debug,
            ),
        r is Ok ==> (secret@.len() > 0 || debug) && vstd::utf8::encode_utf8(key@).len()
            <= crypto::MAX_PLAINTEXT,
        match r {
            Ok(t) => crypto::decrypted(t@, secret@, debug) == crypto::good(
                vstd::utf8::encode_utf8(key@),
            ),
            Err(m) => m@ == "Failed to encrypt e621 key"@,
        },
{
    key_to_store(key, random_nonce(), secret, debug)
}

/// What is read from a stored key.
pub open spec fn key_read(stored: Option<Seq<char>>, secret: Seq<char>, debug: bool) -> Result<
    Option<Seq<char>>,
    Seq<char>,
> {
    match stored {
        None => Ok(None),
        Some(t) => match crypto::decrypted(t, secret, debug) {
            Err(_) => Err("Failed to decrypt e621 key"@),
            Ok(bytes) => if vstd::utf8::valid_utf8(bytes) {
                Ok(Some(vstd::utf8::decode_utf8(bytes)))
            } else {
                Err("e621 key is not valid UTF-8: "@ + utf8_error(bytes))
            },
        },
    }
}

pub open spec fn opt_view(s: Option<String>) -> Option<Seq<char>> {
    match s {
        Some(t) => Some(t@),
        None => None,
    }
}

pub open spec fn key_view(r: Result<Option<String>, String>) -> Result<
    Option<Seq<char>>,
    Seq<char>,
> {
    match r {
        Ok(k) => Ok(opt_view(k)),
        Err(e) => Err(e@),
    }
}

/// The key that is stored for an account, if any.
pub fn get_account_e621_key(stored: Option<String>, secret: &str, debug: bool) -> (r: Result<
    Option<String>,
    String,
>)
    ensures
        key_view(r) == key_read(opt_view(stored), secret@, debug),
{
    match stored {
        None => Ok(None),
        Some(blob) => {
            let plain = match decrypt(blob.as_str(), secret, debug) {
                Ok(p) => p,
                Err(_) => {
                    return Err(String::from_str("Failed to decrypt e621 key"));
                },
            };
            match text_of_utf8(plain) {
                Ok(k) => Ok(Some(k)),
                Err(e) => {
                    let mut m = String::from_str("e621 key is not valid UTF-8: ");
                    m.append(e.as_str());
                    Err(m)
                },
            }
        },
    }
}

/// A stored key reads back as it was given.
pub proof fn law_stored_key_reads_back(
    key: Seq<char>,
    stored: Seq<char>,
    secret: Seq<char>,
    debug: bool,
)
    requires
        crypto::decrypted(stored, secret, debug) == crypto::good(vstd::utf8::encode_utf8(key)),
    ensures
        key_read(Some(stored), secret, debug) == Ok::<Option<Seq<char>>, Seq<char>>(Some(key)),
{
    vstd::utf8::encode_utf8_valid_utf8(key);
    vstd::utf8::encode_utf8_decode_utf8(key);
}

#[derive(Debug)]
pub struct AccountKeyMeta {
    pub has_key: bool,
    pub added_at: Option<String>,
    pub verified_at: Option<String>,
}

/// A row on an account's key: whether there is one, when it was added and when
/// it was verified.
#[derive(Debug)]
pub struct KeyRow {
    pub has_key: bool,
    pub added_at: Option<String>,
    pub verified_at: Option<String>,
}

/// What is known of an account's key. Without a key its times are not told.
pub fn get_account_key_meta(row: Option<KeyRow>) -> (r: AccountKeyMeta)
    ensures
        match row {
            Some(k) => if k.has_key {
                r.has_key && r.added_at == k.added_at && r.verified_at == k.verified_at
            } else {
                !r.has_key && r.added_at is None && r.verified_at is None
            },
            None => !r.has_key && r.added_at is None && r.verified_at is None,
        },
{
    match row {
        Some(k) => if k.has_key {
            AccountKeyMeta { has_key: true, added_at: k.added_at, verified_at: k.verified_at }
        } else {
            AccountKeyMeta { has_key: false, added_at: None, verified_at: None }
        },
        None => AccountKeyMeta { has_key: false, added_at: None, verified_at: None },
    }
}

#[derive(Debug)]
pub struct DirectSyncState {
    pub last_synced_at: Option<String>,
    pub has_key: bool,
}

/// The state of an account's direct sync, from its row if it has one.
pub fn get_direct_sync_state(row: Option<(Option<String>, bool)>) -> (r: DirectSyncState)
    ensures
        match row {
            Some(x) => r.last_synced_at == x.0 && r.has_key == x.1,
            None => r.last_synced_at is None && !r.has_key,
        },
{
    match row {
        Some(x) => DirectSyncState { last_synced_at: x.0, has_key: x.1 },
        None => DirectSyncState { last_synced_at: None, has_key: false },
    }
}

// ---------------------------------------------------------------------------
// What the listings hold
// ---------------------------------------------------------------------------

/// The value of a hexadecimal digit.
pub open spec fn digit_value(c: char) -> int {
    if '0' <= c <= '9' {
        c as int - '0' as int
    } else {
        c as int - 'a' as int + 10
    }
}

/// Hexadecimal text reads back: two digits for each byte, the high one first, in
/// figures and lower-case letters.
pub proof fn law_hex_reads_back(bytes: Seq<u8>, i: int)
    requires
        0 <= i < bytes.len(),
    ensures
        hex_text(bytes).len() == 2 * bytes.len(),
        ({
            let high = hex_text(bytes)[2 * i];
            let low = hex_text(bytes)[2 * i + 1];
            &&& 16 * digit_value(high) + digit_value(low) == bytes[i]
            &&& 0 <= digit_value(high) < 16
            &&& 0 <= digit_value(low) < 16
            &&& '0' <= high <= '9' || 'a' <= high <= 'f'
            &&& '0' <= low <= '9' || 'a' <= low <= 'f'
        }),
    decreases bytes.len(),
{
    let init = bytes.drop_last();
    lemma_hex_len(init);
    lemma_hex_len(bytes);
    if i < init.len() {
        law_hex_reads_back(init, i);
    } else {
        lemma_hex_digit(bytes.last() as int / 16);
        lemma_hex_digit(bytes.last() as int % 16);
    }
}

proof fn lemma_hex_len(bytes: Seq<u8>)
    ensures
        hex_text(bytes).len() == 2 * bytes.len(),
    decreases bytes.len(),
{
    if bytes.len() > 0 {
        lemma_hex_len(bytes.drop_last());
    }
}

proof fn lemma_hex_digit(d: int)
    requires
        0 <= d < 16,
    ensures
        digit_value(hex_digit(d)) == d,
        '0' <= hex_digit(d) <= '9' || 'a' <= hex_digit(d) <= 'f',
{
}

/// The tokens of some rows.
pub open spec fn row_tokens(rows: Seq<LinkRow>) -> Seq<Seq<char>> {
    rows.map_values(|r: LinkRow| r.token@)
}

proof fn lemma_tokens_are_firsts(rows: Seq<LinkRow>)
    ensures
        tokens_of(rows) == tally::firsts(row_tokens(rows)),
    decreases rows.len(),
{
    if rows.len() > 0 {
        lemma_tokens_are_firsts(rows.drop_last());
        assert(row_tokens(rows).drop_last() =~= row_tokens(rows.drop_last()));
    } else {
        assert(row_tokens(rows) =~= Seq::<Seq<char>>::empty());
    }
}

proof fn lemma_rows_are_filtered(rows: Seq<LinkRow>, token: Seq<char>)
    ensures
        rows_of(rows, token) == rows.filter(|r: LinkRow| r.token@ == token),
    decreases rows.len(),
{
    reveal(Seq::filter);
    if rows.len() > 0 {
        lemma_rows_are_filtered(rows.drop_last(), token);
    }
}

proof fn lemma_earliest(rows: Seq<LinkRow>, i: int)
    requires
        0 <= i < rows.len(),
    ensures
        text::text_le(earliest_link(rows), rows[i].linked_at@),
        exists|k: int|
            0 <= k < rows.len() && (#[trigger] rows[k]).linked_at@ == earliest_link(rows),
    decreases rows.len(),
{
    if rows.len() == 1 {
        text::lemma_text_le_reflexive(rows[0].linked_at@);
        assert(rows[0].linked_at@ == earliest_link(rows));
    } else {
        let init = rows.drop_last();
        let e = earliest_link(init);
        let last = rows.last().linked_at@;
        lemma_earliest(init, if i < init.len() { i } else { 0 });
        text::lemma_text_le_total(e, last);
        text::lemma_text_le_reflexive(last);
        let k = choose|k: int| 0 <= k < init.len() && (#[trigger] init[k]).linked_at@ == e;
        assert(rows[k] == init[k]);
        assert(rows[rows.len() - 1] == rows.last());
        if i < init.len() && !text::text_le(e, last) {
            text::lemma_text_le_transitive(last, e, rows[i].linked_at@);
        }
    }
}

proof fn lemma_latest(rows: Seq<LinkRow>, i: int)
    requires
        0 <= i < rows.len(),
    ensures
        text::text_le(rows[i].last_seen_at@, latest_access(rows)),
        exists|k: int|
            0 <= k < rows.len() && (#[trigger] rows[k]).last_seen_at@ == latest_access(rows),
    decreases rows.len(),
{
    if rows.len() == 1 {
        text::lemma_text_le_reflexive(rows[0].last_seen_at@);
        assert(rows[0].last_seen_at@ == latest_access(rows));
    } else {
        let init = rows.drop_last();
        let e = latest_access(init);
        let last = rows.last().last_seen_at@;
        lemma_latest(init, if i < init.len() { i } else { 0 });
        text::lemma_text_le_total(last, e);
        text::lemma_text_le_reflexive(last);
        let k = choose|k: int| 0 <= k < init.len() && (#[trigger] init[k]).last_seen_at@ == e;
        assert(rows[k] == init[k]);
        assert(rows[rows.len() - 1] == rows.last());
        if i < init.len() && !text::text_le(last, e) {
            text::lemma_text_le_transitive(rows[i].last_seen_at@, e, last);
        }
    }
}

/// Devices are listed one for each token, in the order in which the tokens come
/// first. A device has the links of its own token only, all of them and in order;
/// it was first seen with the earliest of these and last with the latest. It is
/// active where its first link was used in the last thirty days, and current where
/// its token is the owner's.
pub proof fn law_devices_sum_up_their_links(
    r: Seq<DeviceSession>,
    rows: Seq<LinkRow>,
    owner: Seq<char>,
    now: Stamp,
    k: int,
    i: int,
)
    requires
        are_devices(r, rows, owner, now),
        0 <= k < r.len(),
        0 <= i < r[k].accounts@.len(),
    ensures
        r.len() == tally::firsts(row_tokens(rows)).len(),
        ({
            let token = tally::firsts(row_tokens(rows))[k];
            let own = rows.filter(|x: LinkRow| x.token@ == token);
            let d = r[k];
            &&& d.accounts@.len() == own.len()
            &&& d.accounts@[i].account_id == own[i].account_id
            &&& d.accounts@[i].name@ == own[i].name@
            &&& d.accounts@[i].linked_at@ == own[i].linked_at@
            &&& d.accounts@[i].last_seen_at@ == own[i].last_seen_at@
            &&& d.is_current <==> token == owner
            &&& d.active <==> days_since(own[0].last_seen_at@, now) <= 30
            &&& text::text_le(d.first_seen_at@, own[i].linked_at@)
            &&& text::text_le(own[i].last_seen_at@, d.last_seen_at@)
            &&& exists|j: int|
                0 <= j < own.len() && (#[trigger] own[j]).linked_at@ == d.first_seen_at@
            &&& exists|j: int|
                0 <= j < own.len() && (#[trigger] own[j]).last_seen_at@ == d.last_seen_at@
        }),
{
    lemma_tokens_are_firsts(rows);
    let token = tokens_of(rows)[k];
    lemma_rows_are_filtered(rows, token);
    let own = rows_of(rows, token);
    assert(is_device(r[k], own, token, owner, now));
    assert(is_link_of(r[k].accounts@[i], own[i]));
    lemma_earliest(own, i);
    lemma_latest(own, i);
}

/// The tables that hold rows of an account by its id.
pub open spec fn account_tables() -> Seq<Seq<char>> {
    seq![
        "accounts_post"@,
        "account_tag_counts"@,
        "account_rating_profile"@,
        "account_media_profile"@,
        "account_quality_profile"@,
        "account_tag_feedback"@,
    ]
}

/// A removal deletes the account's own rows from every table that holds some, and
/// the account itself last.
pub proof fn law_removal_takes_the_account_last(i: int)
    requires
        0 <= i < account_tables().len(),
    ensures
        removal_statements().len() == account_tables().len() + 1,
        removal_statements()[i] == "DELETE FROM "@ + account_tables()[i]
            + " WHERE account_id = ?1"@,
        removal_statements().last() == "DELETE FROM "@ + "accounts"@ + " WHERE id = ?1"@,
{
    reveal_strlit("DELETE FROM ");
    reveal_strlit(" WHERE account_id = ?1");
    reveal_strlit(" WHERE id = ?1");
    reveal_strlit("accounts");
    reveal_strlit("accounts_post");
    reveal_strlit("account_tag_counts");
    reveal_strlit("account_rating_profile");
    reveal_strlit("account_media_profile");
    reveal_strlit("account_quality_profile");
    reveal_strlit("account_tag_feedback");
    reveal_strlit("DELETE FROM accounts_post WHERE account_id = ?1");
    reveal_strlit("DELETE FROM account_tag_counts WHERE account_id = ?1");
    reveal_strlit("DELETE FROM account_rating_profile WHERE account_id = ?1");
    reveal_strlit("DELETE FROM account_media_profile WHERE account_id = ?1");
    reveal_strlit("DELETE FROM account_quality_profile WHERE account_id = ?1");
    reveal_strlit("DELETE FROM account_tag_feedback WHERE account_id = ?1");
    reveal_strlit("DELETE FROM accounts WHERE id = ?1");
    let t = account_tables();
    let s = removal_statements();
    let w = " WHERE account_id = ?1"@;
    assert(s[0] =~= "DELETE FROM "@ + t[0] + w);
    assert(s[1] =~= "DELETE FROM "@ + t[1] + w);
    assert(s[2] =~= "DELETE FROM "@ + t[2] + w);
    assert(s[3] =~= "DELETE FROM "@ + t[3] + w);
    assert(s[4] =~= "DELETE FROM "@ + t[4] + w);
    assert(s[5] =~= "DELETE FROM "@ + t[5] + w);
    assert(s[6] =~= "DELETE FROM "@ + "accounts"@ + " WHERE id = ?1"@);
}

/// An account in a bucket counts for that bucket, and one in none for `none`.
pub proof fn law_bucket_labels(buckets: Seq<Option<String>>, i: int)
    requires
        0 <= i < buckets.len(),
    ensures
        bucket_labels(buckets).len() == buckets.len(),
        buckets[i] is Some ==> bucket_labels(buckets)[i] == buckets[i]->0@,
        buckets[i] is None ==> bucket_labels(buckets)[i] == "none"@,
{
}

/// A blacklist that is given is stored as it is; only an empty one gives way to
/// the configured tags, one on each line.
pub proof fn law_blacklist_to_store(given: Seq<char>, defaults: Seq<String>)
    ensures
        given.len() > 0 ==> resolved_blacklist(given, defaults) == given,
        given.len() == 0 ==> resolved_blacklist(given, defaults) == text::joined(
            text::views(defaults),
            "\n"@,
        ),
{
}

} // verus!
