use vstd::prelude::*;
use chrono::{DateTime, Utc};

verus! {

/// The RFC 3339 text of the instant `secs` seconds and `nanos` nanoseconds
/// after the Unix epoch (UTC), as chrono writes it; `None` where chrono
/// refuses the pair.
pub uninterp spec fn rfc3339_of(secs: i64, nanos: u32) -> Option<Seq<char>>;

/// Relies on chrono's `DateTime::<Utc>::from_timestamp`, which gives `None`
/// for seconds out of range or an invalid nanosecond part, and on
/// `DateTime::to_rfc3339` for the text of a valid instant.
#[verifier::external_body]
fn rfc3339_at(secs: i64, nanos: u32) -> (r: Option<String>)
    ensures
        match r {
            Some(t) => rfc3339_of(secs, nanos) == Some(t@),
            None => rfc3339_of(secs, nanos) is None,
        },
{
    match DateTime::<Utc>::from_timestamp(secs, nanos) {
        Some(t) => Some(t.to_rfc3339()),
        None => None,
    }
}

/// An instant in UTC that chrono accepts, as seconds and nanoseconds after
/// the Unix epoch, with its RFC 3339 text.
pub struct UtcInstant {
    secs: i64,
    nanos: u32,
    text: String,
}

impl UtcInstant {
    pub closed spec fn secs(&self) -> i64 {
        self.secs
    }

    pub closed spec fn nanos(&self) -> u32 {
        self.nanos
    }

    #[verifier::type_invariant]
    closed spec fn inv(&self) -> bool {
        rfc3339_of(self.secs, self.nanos) == Some(self.text@)
    }

    /// The instant `secs` seconds and `nanos` nanoseconds after the epoch,
    /// `None` where chrono refuses it.
    pub fn from_timestamp(secs: i64, nanos: u32) -> (r: Option<UtcInstant>)
        ensures
            match r {
                Some(t) => t.secs() == secs && t.nanos() == nanos,
                None => rfc3339_of(secs, nanos) is None,
            },
    {
        match rfc3339_at(secs, nanos) {
            Some(text) => Some(UtcInstant { secs, nanos, text }),
            None => None,
        }
    }

    /// The instant as RFC 3339 text.
    pub fn to_rfc3339(&self) -> (r: String)
        ensures
            rfc3339_of(self.secs(), self.nanos()) == Some(r@),
    {
        proof {
            use_type_invariant(self);
        }
        self.text.clone()
    }
}

/// Payload that creates a player node.
pub struct CreatePlayerRequest {
    pub name: String,
    pub aliases: Vec<String>,
    pub is_sub: bool,
}

impl CreatePlayerRequest {
    /// A regular (not substitute) player of the given name, with no aliases.
    pub fn new(name: String) -> (r: CreatePlayerRequest)
        ensures
            r.name@ == name@,
            r.aliases@.len() == 0,
            !r.is_sub,
    {
        CreatePlayerRequest { name, aliases: Vec::new(), is_sub: false }
    }
}

/// Payload that records that two players teamed up in a game.
/// `played_on` is the game's instant as RFC 3339 text.
pub struct CreateWithRequest {
    pub from: String,
    pub to: String,
    pub played_on: String,
    pub order: u8,
}

impl CreateWithRequest {
    pub fn new(from: &str, to: &str, played_on: &UtcInstant, order: u8) -> (r:
        CreateWithRequest)
        ensures
            r.from@ == from@,
            r.to@ == to@,
            rfc3339_of(played_on.secs(), played_on.nanos()) == Some(r.played_on@),
            r.order == order,
    {
        CreateWithRequest {
            from: from.to_string(),
            to: to.to_string(),
            played_on: played_on.to_rfc3339(),
            order,
        }
    }
}

/// Payload that records that one player played against another in a game,
/// with the points the first one's team scored.
/// `played_on` is the game's instant as RFC 3339 text.
pub struct CreateAgainstRequest {
    pub from: String,
    pub to: String,
    pub played_on: String,
    pub order: u8,
    pub points_scored: u8,
}

impl CreateAgainstRequest {
    pub fn new(
        from: &str,
        to: &str,
        played_on: &UtcInstant,
        order: u8,
        points_scored: u8,
    ) -> (r: CreateAgainstRequest)
        ensures
            r.from@ == from@,
            r.to@ == to@,
            rfc3339_of(played_on.secs(), played_on.nanos()) == Some(r.played_on@),
            r.order == order,
            r.points_scored == points_scored,
    {
        CreateAgainstRequest {
            from: from.to_string(),
            to: to.to_string(),
            played_on: played_on.to_rfc3339(),
            order,
            points_scored,
        }
    }
}

} // verus!
