use vstd::prelude::*;

verus! {

/// An instant in UTC: whole seconds since the Unix epoch and the nanoseconds past them.
#[derive(Debug, Clone, Copy, PartialEq, Eq, Structural)]
pub struct Timestamp {
    pub seconds: i64,
    pub nanos: u32,
}

/// `a` is the same instant as `b` or a later one.
pub open spec fn not_before(a: Timestamp, b: Timestamp) -> bool {
    a.seconds > b.seconds || (a.seconds == b.seconds && a.nanos >= b.nanos)
}

/// The UTC instant, as (seconds, subsecond nanoseconds), that a feed timestamp with
/// an explicit offset denotes; `None` where the text is no such timestamp.
pub uninterp spec fn feed_instant(text: Seq<char>) -> Option<(i64, u32)>;

/// Relies on chrono's `FromStr for DateTime<FixedOffset>` (relaxed RFC 3339, the parser
/// its serde support uses) followed by `DateTime::timestamp` and
/// `DateTime::timestamp_subsec_nanos`, which read the instant in UTC.
#[verifier::external_body]
fn parse_instant(text: &str) -> (r: Option<(i64, u32)>)
    ensures
        r == feed_instant(text@),
{
    match text.parse::<chrono::DateTime<chrono::FixedOffset>>() {
        Ok(t) => Some((t.timestamp(), t.timestamp_subsec_nanos())),
        Err(_) => None,
    }
}

impl Timestamp {
    pub open spec fn parse_spec(text: Seq<char>) -> Option<Timestamp> {
        match feed_instant(text) {
            Some(inst) => Some(Timestamp { seconds: inst.0, nanos: inst.1 }),
            None => None,
        }
    }

    /// Parses a timestamp with an explicit UTC offset and normalises it to UTC.
    pub fn parse(text: &str) -> (r: Option<Timestamp>)
        ensures
            r == Timestamp::parse_spec(text@),
    {
        match parse_instant(text) {
            Some(inst) => Some(Timestamp { seconds: inst.0, nanos: inst.1 }),
            None => None,
        }
    }

    /// Whether `self` is the same instant as `other` or a later one.
    pub fn is_not_before(&self, other: &Timestamp) -> (r: bool)
        ensures
            r == not_before(*self, *other),
    {
        self.seconds > other.seconds || (self.seconds == other.seconds && self.nanos
            >= other.nanos)
    }
}

} // verus!
