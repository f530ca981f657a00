//! The refresh of an account's profiles and the decay of its tag feedback.

use vstd::prelude::*;

use crate::clock;
use crate::clock::{parse_db_datetime, parse_utc, seconds_between};
use crate::db::sql;
use crate::db::sql::tag_error;
use crate::errors::DbFailure;
use crate::models::Stamp;

verus! {

/// One step of a refresh.
#[derive(Clone, Copy, Debug, PartialEq, Eq, Structural)]
pub enum ProfileStep {
    TagCounts,
    Rating,
    Media,
    Quality,
    Recency,
    Uploaders,
    Cooccurrence,
    DecayFeedback,
    MarkRefreshed,
    ForgetCachedTagCounts,
}

/// The steps of a refresh, in order. A failed step ends it.
pub open spec fn refresh_steps(skip_cooccurrence: bool) -> Seq<ProfileStep> {
    seq![
        ProfileStep::TagCounts,
        ProfileStep::Rating,
        ProfileStep::Media,
        ProfileStep::Quality,
        ProfileStep::Recency,
        ProfileStep::Uploaders,
    ] + (if skip_cooccurrence {
        Seq::empty()
    } else {
        seq![ProfileStep::Cooccurrence]
    }) + seq![
        ProfileStep::DecayFeedback,
        ProfileStep::MarkRefreshed,
        ProfileStep::ForgetCachedTagCounts,
    ]
}

fn refresh_account_profiles_impl(skip_cooccurrence: bool) -> (r: Vec<ProfileStep>)
    ensures
        r@ == refresh_steps(skip_cooccurrence),
{
    let mut v: Vec<ProfileStep> = Vec::new();
    v.push(ProfileStep::TagCounts);
    v.push(ProfileStep::Rating);
    v.push(ProfileStep::Media);
    v.push(ProfileStep::Quality);
    v.push(ProfileStep::Recency);
    v.push(ProfileStep::Uploaders);
    if !skip_cooccurrence {
        v.push(ProfileStep::Cooccurrence);
    }
    v.push(ProfileStep::DecayFeedback);
    v.push(ProfileStep::MarkRefreshed);
    v.push(ProfileStep::ForgetCachedTagCounts);
    proof {
        assert(v@ =~= refresh_steps(skip_cooccurrence));
    }
    v
}

/// The steps of a full refresh.
pub fn refresh_account_profiles() -> (r: Vec<ProfileStep>)
    ensures
        r@ == refresh_steps(false),
{
    refresh_account_profiles_impl(false)
}

/// The steps of a refresh that leaves the co-occurrences alone.
pub fn refresh_account_profiles_skip_cooc() -> (r: Vec<ProfileStep>)
    ensures
        r@ == refresh_steps(true),
{
    refresh_account_profiles_impl(true)
}

/// The seconds of a day.
pub const DAY_SECS: i64 = 86_400;

/// The seconds for which feedback is to decay, once that is a day or more.
/// Feedback whose last decay is unknown counts as decayed now.
pub open spec fn decay_due(last_raw: Seq<char>, now: Stamp) -> Option<i64> {
    match clock::db_datetime(last_raw) {
        Ok(t) => match clock::seconds_apart(now.secs, now.nanos, t.0, t.1) {
            Some(s) => if last_raw.len() > 0 && s >= DAY_SECS {
                Some(s)
            } else {
                None
            },
            None => None,
        },
        Err(_) => None,
    }
}

/// The seconds for which a row of tag feedback is to decay, if it is due.
pub fn decay_account_tag_feedback(last_raw: &str, now: Stamp) -> (r: Option<i64>)
    ensures
        r == decay_due(last_raw@, now),
        r matches Some(s) ==> s >= DAY_SECS,
        match clock::db_datetime(last_raw@) {
            Ok(t) => last_raw@.len() > 0 && clock::is_plain(now.secs, now.nanos) && clock::is_plain(
                t.0,
                t.1,
            ) ==> {
                let s = clock::whole(
                    clock::nanos_apart((now.secs, now.nanos), t),
                    1_000_000_000,
                );
                r == (if s >= DAY_SECS {
                    Some(s as i64)
                } else {
                    None
                })
            },
            Err(_) => r is None,
        },
{
    if last_raw.is_empty() {
        return None;
    }
    match parse_db_datetime(last_raw) {
        Ok(t) => match seconds_between(now, t) {
            Some(s) => if s >= DAY_SECS {
                Some(s)
            } else {
                None
            },
            None => None,
        },
        Err(_) => None,
    }
}

/// What becomes of a decayed row.
#[derive(Clone, Copy, Debug, PartialEq, Eq, Structural)]
pub enum DecayAction {
    /// Nothing is left of it.
    Delete,
    /// The counts to store.
    Update { impressions: i64, positive: i64, negative: i64 },
}

/// What becomes of a row, given its decayed and rounded counts.
pub fn settle_decay(impressions: i64, positive: i64, negative: i64) -> (r: DecayAction)
    ensures
        r == (if impressions == 0 && positive == 0 && negative == 0 {
            DecayAction::Delete
        } else {
            DecayAction::Update { impressions, positive, negative }
        }),
{
    if impressions == 0 && positive == 0 && negative == 0 {
        DecayAction::Delete
    } else {
        DecayAction::Update { impressions, positive, negative }
    }
}

// ---------------------------------------------------------------------------
// Reading profiles
// ---------------------------------------------------------------------------

/// When a profile was refreshed, given what its stored time parses to: a time
/// that cannot be read counts as now.
pub open spec fn parsed_or(parsed: Result<(i64, u32), Seq<char>>, now: Stamp) -> Stamp {
    match parsed {
        Ok(x) => Stamp { secs: x.0, nanos: x.1 },
        Err(_) => now,
    }
}

/// The parsed time, or now where it could not be read.
pub fn time_or_now(parsed: Result<Stamp, String>, now: Stamp) -> (r: Stamp)
    ensures
        r == parsed_or(clock::parse_view(parsed), now),
{
    match parsed {
        Ok(s) => s,
        Err(_) => now,
    }
}

/// When an account's profile was last refreshed, given the stored text. An
/// absent or empty text means never.
pub fn get_account_preference_profile(refreshed_at: Option<&str>, now: Stamp) -> (r: Option<Stamp>)
    ensures
        r == (match refreshed_at {
            Some(s) => if s@.len() > 0 {
                Some(parsed_or(clock::utc_instant(s@), now))
            } else {
                None
            },
            None => None,
        }),
{
    match refreshed_at {
        Some(s) => {
            if s.is_empty() {
                None
            } else {
                Some(time_or_now(parse_utc(s), now))
            }
        },
        None => None,
    }
}

/// Averages of an account's posts, as the bit patterns of their floating-point
/// values.
#[derive(Clone, Copy, Debug, PartialEq, Eq, Structural)]
pub struct AccountQualityProfile {
    pub avg_score_total: u32,
    pub avg_fav_count: u32,
    pub avg_comment_count: u32,
    pub avg_duration: u32,
}

/// The quality profile of an account: all zero where none is stored.
pub fn get_account_quality_profile(row: Result<AccountQualityProfile, DbFailure>) -> (r: Result<
    AccountQualityProfile,
    String,
>)
    ensures
        match row {
            Ok(p) => r == Ok::<AccountQualityProfile, String>(p),
            Err(DbFailure::NoRows) => r == Ok::<AccountQualityProfile, String>(
                (AccountQualityProfile {
                    avg_score_total: 0,
                    avg_fav_count: 0,
                    avg_comment_count: 0,
                    avg_duration: 0,
                }),
            ),
            Err(DbFailure::Other(e)) => r matches Err(m) && m@ == sql::tagged(
                "Failed to fetch quality profile"@,
                e@,
            ),
        },
{
    match row {
        Ok(p) => Ok(p),
        Err(DbFailure::NoRows) => Ok(
            AccountQualityProfile {
                avg_score_total: 0,
                avg_fav_count: 0,
                avg_comment_count: 0,
                avg_duration: 0,
            },
        ),
        Err(DbFailure::Other(e)) => Err(tag_error("Failed to fetch quality profile", e.as_str())),
    }
}

/// How old an account's posts are on average, and how far they stray from it, as
/// the bit patterns of their floating-point values.
#[derive(Clone, Copy, Debug, PartialEq, Eq, Structural)]
pub struct AccountRecencyProfile {
    pub avg_age_days: u32,
    pub avg_abs_dev_days: u32,
}

/// The recency profile of an account: all zero where none is stored.
pub fn get_account_recency_profile(row: Result<AccountRecencyProfile, DbFailure>) -> (r: Result<
    AccountRecencyProfile,
    String,
>)
    ensures
        match row {
            Ok(p) => r == Ok::<AccountRecencyProfile, String>(p),
            Err(DbFailure::NoRows) => r == Ok::<AccountRecencyProfile, String>(
                (AccountRecencyProfile { avg_age_days: 0, avg_abs_dev_days: 0 }),
            ),
            Err(DbFailure::Other(e)) => r matches Err(m) && m@ == sql::tagged(
                "Failed to fetch recency profile"@,
                e@,
            ),
        },
{
    match row {
        Ok(p) => Ok(p),
        Err(DbFailure::NoRows) => Ok(
            AccountRecencyProfile { avg_age_days: 0, avg_abs_dev_days: 0 },
        ),
        Err(DbFailure::Other(e)) => Err(tag_error("Failed to fetch recency profile", e.as_str())),
    }
}

/// Both refreshes do the same but for the co-occurrences, and end by forgetting
/// the cached tag counts.
pub proof fn law_refreshes_agree(i: int)
    requires
        0 <= i < refresh_steps(true).len(),
    ensures
        refresh_steps(true)[i] == refresh_steps(false)[if i < 6 {
            i
        } else {
            i + 1
        }],
        refresh_steps(false).last() == ProfileStep::ForgetCachedTagCounts,
        refresh_steps(true).last() == ProfileStep::ForgetCachedTagCounts,
        !refresh_steps(true).contains(ProfileStep::Cooccurrence),
{
}

/// When a step of a refresh comes.
pub open spec fn step_rank(s: ProfileStep) -> int {
    match s {
        ProfileStep::TagCounts => 0,
        ProfileStep::Rating => 1,
        ProfileStep::Media => 2,
        ProfileStep::Quality => 3,
        ProfileStep::Recency => 4,
        ProfileStep::Uploaders => 5,
        ProfileStep::Cooccurrence => 6,
        ProfileStep::DecayFeedback => 7,
        ProfileStep::MarkRefreshed => 8,
        ProfileStep::ForgetCachedTagCounts => 9,
    }
}

/// A refresh takes every step once and in order; the co-occurrences are left out
/// exactly where that is asked for.
pub proof fn law_refresh_takes_every_step(skip_cooccurrence: bool, s: ProfileStep)
    ensures
        refresh_steps(skip_cooccurrence).contains(s) <==> !(skip_cooccurrence && s
            == ProfileStep::Cooccurrence),
        forall|i: int, j: int|
            0 <= i < j < refresh_steps(skip_cooccurrence).len() ==> step_rank(
                #[trigger] refresh_steps(skip_cooccurrence)[i],
            ) < step_rank(#[trigger] refresh_steps(skip_cooccurrence)[j]),
{
    let steps = refresh_steps(skip_cooccurrence);
    let r = step_rank(s);
    if !(skip_cooccurrence && s == ProfileStep::Cooccurrence) {
        let k = if skip_cooccurrence && r > 6 {
            r - 1
        } else {
            r
        };
        assert(steps[k] == s);
    }
}

/// Feedback decays for the whole seconds since its last decay, and only once
/// these make a day; feedback with no readable last decay does not.
pub proof fn law_decay_is_due_after_a_day(last_raw: Seq<char>, now: Stamp)
    ensures
        decay_due(last_raw, now) is Some ==> last_raw.len() > 0 && clock::db_datetime(
            last_raw,
        ) is Ok && decay_due(last_raw, now)->0 >= 24 * 60 * 60 && decay_due(last_raw, now)
            == clock::seconds_apart(
            now.secs,
            now.nanos,
            clock::db_datetime(last_raw)->Ok_0.0,
            clock::db_datetime(last_raw)->Ok_0.1,
        ),
        last_raw.len() > 0 && clock::db_datetime(last_raw) is Ok ==> ({
            let t = clock::db_datetime(last_raw)->Ok_0;
            let s = clock::seconds_apart(now.secs, now.nanos, t.0, t.1);
            s is Some && s->0 >= 24 * 60 * 60 ==> decay_due(last_raw, now) == s
        }),
{
}

/// A time that is read is kept to the nanosecond, and any other counts as now.
pub proof fn law_read_time(parsed: Result<(i64, u32), Seq<char>>, now: Stamp)
    ensures
        parsed is Ok ==> parsed_or(parsed, now).secs == parsed->Ok_0.0 && parsed_or(
            parsed,
            now,
        ).nanos == parsed->Ok_0.1,
        parsed is Err ==> parsed_or(parsed, now) == now,
{
}

} // verus!
