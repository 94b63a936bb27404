//! Claims: the unit of knowledge, with a memory tier, scores, a
//! supersession link, a stale flag and access bookkeeping.
use vstd::prelude::*;
use crate::ids::ClaimId;
use crate::text::owned;

verus! {

/// How long-lived a claim's knowledge is.
#[derive(Clone, Copy, PartialEq, Eq, Debug, Hash, Structural)]
pub enum MemoryTier {
    Working,
    Episodic,
    Semantic,
    Procedural,
}

/// A score such as a confidence, held as the bit pattern of an IEEE-754
/// binary64 value; arithmetic on scores happens outside this library.
#[derive(Clone, Copy, PartialEq, Eq, Debug, Hash, Structural)]
pub struct Score {
    pub bits: u64,
}

/// The bit pattern of the binary64 value 1.0.
pub const UNIT_SCORE_BITS: u64 = 0x3FF0_0000_0000_0000;

impl Score {
    /// The full score, 1.0.
    pub open spec fn spec_unit() -> Score {
        Score { bits: UNIT_SCORE_BITS }
    }

    /// The full score, 1.0.
    pub fn unit() -> (r: Score)
        ensures
            r == Score::spec_unit(),
    {
        Score { bits: UNIT_SCORE_BITS }
    }
}

/// A point in time: seconds since the Unix epoch and the nanoseconds past them.
#[derive(Clone, Copy, PartialEq, Eq, Debug, Hash, Structural)]
pub struct Timestamp {
    pub seconds: i64,
    pub nanos: u32,
}

/// Calls `chrono::Utc::now` and returns its seconds and nanoseconds;
/// nothing is claimed of the reading, which is the clock's.
#[verifier::external_body]
pub fn current_time() -> (r: Timestamp) {
    let now = chrono::Utc::now();
    Timestamp { seconds: now.timestamp(), nanos: now.timestamp_subsec_nanos() }
}

/// What `chrono::DateTime::parse_from_rfc3339` reads from a text: the
/// seconds since the Unix epoch and the nanoseconds past them of the instant
/// the text denotes, or `None` for a text it refuses.
pub uninterp spec fn rfc3339_parse(text: Seq<char>) -> Option<(i64, u32)>;

/// An instant whose year lies between 0 and 9999 and which is not a leap
/// second: chrono writes it in RFC 3339 with a four-digit year and reads
/// that text back as the same instant.
pub open spec fn rfc3339_writable(seconds: i64, nanos: u32) -> bool {
    -62167219200 <= seconds < 253402300800 && nanos < 1000000000
}

/// Calls `chrono::DateTime::parse_from_rfc3339` and returns the instant's
/// seconds and nanoseconds. Claimed: the result is the named value
/// `rfc3339_parse` of the text, and a text that `to_rfc3339` wrote for a
/// writable instant reads back as that instant (chrono's writer puts out
/// the four-digit year, the time, the fraction of a second in 3, 6 or 9
/// digits and the `+00:00` offset, all of which its parser reads).
#[verifier::external_body]
fn parse_rfc3339_value(text: &str) -> (r: Option<(i64, u32)>)
    ensures
        r == rfc3339_parse(text@),
        forall|s: i64, n: u32|
            rfc3339_writable(s, n) && #[trigger] rfc3339_text(s, n) == Some(text@) ==> r == Some((s, n)),
{
    match chrono::DateTime::parse_from_rfc3339(text) {
        Ok(dt) => Some((dt.timestamp(), dt.timestamp_subsec_nanos())),
        Err(_) => None,
    }
}

/// The timestamp that an RFC 3339 text denotes, if it is one.
pub open spec fn timestamp_of_text(text: Seq<char>) -> Option<Timestamp> {
    match rfc3339_parse(text) {
        Some((s, n)) => Some(Timestamp { seconds: s, nanos: n }),
        None => None,
    }
}

/// Reads a timestamp from RFC 3339 text (see `timestamp_of_text`); the text
/// written for a writable timestamp reads back as that timestamp.
pub fn parse_timestamp(text: &str) -> (r: Option<Timestamp>)
    ensures
        r == timestamp_of_text(text@),
        forall|t: Timestamp|
            rfc3339_writable(t.seconds, t.nanos) && #[trigger] rfc3339_text(t.seconds, t.nanos) == Some(
                text@,
            ) ==> r == Some(t),
{
    match parse_rfc3339_value(text) {
        Some((s, n)) => Some(Timestamp { seconds: s, nanos: n }),
        None => None,
    }
}

/// What `to_rfc3339` writes for the UTC instant with the given seconds and
/// nanoseconds, or `None` where chrono cannot represent that instant.
pub uninterp spec fn rfc3339_text(seconds: i64, nanos: u32) -> Option<Seq<char>>;

/// Calls `chrono::DateTime::<Utc>::from_timestamp` and, where it gives an
/// instant, that instant's `to_rfc3339`. Claimed: the result is the named
/// value `rfc3339_text` of the seconds and nanoseconds, and a writable pair
/// always gives an instant (its days lie well inside chrono's date range).
#[verifier::external_body]
fn format_rfc3339_value(seconds: i64, nanos: u32) -> (r: Option<String>)
    ensures
        match r {
            Some(t) => rfc3339_text(seconds, nanos) == Some(t@),
            None => rfc3339_text(seconds, nanos) is None,
        },
        rfc3339_writable(seconds, nanos) ==> r is Some,
{
    match chrono::DateTime::<chrono::Utc>::from_timestamp(seconds, nanos) {
        Some(dt) => Some(dt.to_rfc3339()),
        None => None,
    }
}

/// The RFC 3339 text of a timestamp in UTC, or `None` where the timestamp
/// is out of the representable range (see `rfc3339_text`).
pub fn format_timestamp(ts: Timestamp) -> (r: Option<String>)
    ensures
        match r {
            Some(t) => rfc3339_text(ts.seconds, ts.nanos) == Some(t@),
            None => rfc3339_text(ts.seconds, ts.nanos) is None,
        },
        rfc3339_writable(ts.seconds, ts.nanos) ==> r is Some,
{
    format_rfc3339_value(ts.seconds, ts.nanos)
}

/// A knowledge claim.
#[derive(Clone, Debug)]
pub struct Claim {
    pub id: ClaimId,
    pub text: String,
    pub tier: MemoryTier,
    pub confidence: Score,
    pub quality_score: Score,
    pub supersedes: Option<ClaimId>,
    pub stale: bool,
    pub access_count: u32,
    pub created_at: Timestamp,
    pub updated_at: Timestamp,
}

/// A claim that replaces another, with the replaced claim as it now stands.
#[derive(Clone, Debug)]
pub struct ClaimReplacement {
    pub previous: Claim,
    pub current: Claim,
}

/// A claim as it is first filed: full scores, no predecessor, not stale,
/// never accessed, created and updated at the same moment.
pub open spec fn fresh_claim(id: ClaimId, text: Seq<char>, tier: MemoryTier, c: Claim) -> bool {
    &&& c.id == id
    &&& c.text@ == text
    &&& c.tier == tier
    &&& c.confidence == Score::spec_unit()
    &&& c.quality_score == Score::spec_unit()
    &&& c.supersedes is None
    &&& !c.stale
    &&& c.access_count == 0
    &&& c.created_at == c.updated_at
}

/// What superseding `old` gives at time `now`: `old` marked stale and
/// updated at `now`, and a claim with the given id, text and scores in
/// `old`'s tier that names `old` as the claim it supersedes, created and
/// updated at `now`.
pub open spec fn supersession(
    old: Claim,
    id: ClaimId,
    text: Seq<char>,
    confidence: Score,
    quality_score: Score,
    now: Timestamp,
    r: ClaimReplacement,
) -> bool {
    &&& r.previous.id == old.id
    &&& r.previous.text@ == old.text@
    &&& r.previous.tier == old.tier
    &&& r.previous.confidence == old.confidence
    &&& r.previous.quality_score == old.quality_score
    &&& r.previous.supersedes == old.supersedes
    &&& r.previous.stale
    &&& r.previous.access_count == old.access_count
    &&& r.previous.created_at == old.created_at
    &&& r.previous.updated_at == now
    &&& r.current.id == id
    &&& r.current.text@ == text
    &&& r.current.tier == old.tier
    &&& r.current.confidence == confidence
    &&& r.current.quality_score == quality_score
    &&& r.current.supersedes == Some(old.id)
    &&& !r.current.stale
    &&& r.current.access_count == 0
    &&& r.current.created_at == now
    &&& r.current.updated_at == now
}

impl Claim {
    /// A new claim with full scores, stamped with the current time.
    pub fn new(id: ClaimId, text: &str, tier: MemoryTier) -> (r: Claim)
        ensures
            fresh_claim(id, text@, tier, r),
    {
        let now = current_time();
        Claim {
            id,
            text: owned(text),
            tier,
            confidence: Score::unit(),
            quality_score: Score::unit(),
            supersedes: None,
            stale: false,
            access_count: 0,
            created_at: now,
            updated_at: now,
        }
    }

    /// A field-by-field copy of the claim.
    pub fn duplicate(&self) -> (r: Claim)
        ensures
            r == *self,
    {
        Claim {
            id: self.id,
            text: self.text.clone(),
            tier: self.tier,
            confidence: self.confidence,
            quality_score: self.quality_score,
            supersedes: self.supersedes,
            stale: self.stale,
            access_count: self.access_count,
            created_at: self.created_at,
            updated_at: self.updated_at,
        }
    }

    /// Replaces this claim by a new one with the given id, text and scores:
    /// this claim is marked stale, the new one names it as superseded, and
    /// one reading of the clock is the new claim's creation time and both
    /// claims' update time.
    pub fn superseded_by(
        &self,
        id: ClaimId,
        text: &str,
        confidence: Score,
        quality_score: Score,
    ) -> (r: ClaimReplacement)
        ensures
            exists|now: Timestamp| supersession(*self, id, text@, confidence, quality_score, now, r),
    {
        let now = current_time();
        let mut previous = self.duplicate();
        previous.stale = true;
        previous.updated_at = now;
        let mut current = Claim::new(id, text, self.tier);
        current.created_at = now;
        current.confidence = confidence;
        current.quality_score = quality_score;
        current.supersedes = Some(self.id);
        current.updated_at = now;
        let r = ClaimReplacement { previous, current };
        assert(supersession(*self, id, text@, confidence, quality_score, now, r));
        r
    }
}

/// Law: superseding a claim marks the old claim stale and keeps its
/// identity, while the new claim points back to it, keeps its tier and is
/// itself live; both carry the same update time.
pub proof fn law_supersede_marks_old_stale(
    old: Claim,
    id: ClaimId,
    text: Seq<char>,
    confidence: Score,
    quality_score: Score,
    now: Timestamp,
    r: ClaimReplacement,
)
    requires
        supersession(old, id, text, confidence, quality_score, now, r),
    ensures
        r.previous.stale,
        r.previous.id == old.id,
        r.current.supersedes == Some(old.id),
        r.current.tier == old.tier,
        !r.current.stale,
        r.previous.updated_at == r.current.updated_at,
        id != old.id ==> r.current.id != r.previous.id,
{
}

/// Law: the replacement is created at the supersession: its creation time
/// is its own update time and the moment the superseded claim was marked
/// stale, whatever the superseded claim's own creation time was.
pub proof fn law_replacement_created_at_supersession(
    old: Claim,
    id: ClaimId,
    text: Seq<char>,
    confidence: Score,
    quality_score: Score,
    now: Timestamp,
    r: ClaimReplacement,
)
    requires
        supersession(old, id, text, confidence, quality_score, now, r),
    ensures
        r.current.created_at == r.current.updated_at,
        r.current.created_at == r.previous.updated_at,
        r.previous.created_at == old.created_at,
{
}

} // verus!
