//! Instants as plain numbers, and their RFC 3339 text as chrono reads and
//! writes it.

use vstd::prelude::*;

verus! {

/// An instant on the UTC time line: whole seconds since 1970-01-01T00:00:00Z
/// and the nanoseconds past that second. During a leap second the
/// nanoseconds run from 1_000_000_000 up, as chrono counts them.
#[derive(Clone, Copy, Debug, PartialEq, Eq, Structural)]
pub struct Timestamp {
    pub secs: i64,
    pub nanos: u32,
}

/// The instant that chrono reads from an RFC 3339 text, as seconds and
/// nanoseconds; `None` where chrono rejects the text.
pub uninterp spec fn rfc3339_instant(text: Seq<char>) -> Option<(i64, u32)>;

/// The RFC 3339 text that chrono writes for an instant given as seconds and
/// nanoseconds; `None` where chrono has no date for them.
pub uninterp spec fn rfc3339_text(secs: i64, nanos: u32) -> Option<Seq<char>>;

/// The instant that a text stands for, if it stands for one.
pub open spec fn parsed_instant(text: Seq<char>) -> Option<Timestamp> {
    match rfc3339_instant(text) {
        Some((secs, nanos)) => Some(Timestamp { secs, nanos }),
        None => None,
    }
}

/// Reads an RFC 3339 text with `chrono::DateTime::parse_from_rfc3339` and
/// hands out the instant as `DateTime::timestamp` and
/// `DateTime::timestamp_subsec_nanos` give it. Believed, not proved: the
/// outcome depends on the text alone.
#[verifier::external_body]
fn parse_rfc3339(text: &str) -> (r: Option<Timestamp>)
    ensures
        match r {
            Some(t) => rfc3339_instant(text@) == Some((t.secs, t.nanos)),
            None => rfc3339_instant(text@) is None,
        },
{
    match chrono::DateTime::parse_from_rfc3339(text) {
        Ok(t) => Some(Timestamp { secs: t.timestamp(), nanos: t.timestamp_subsec_nanos() }),
        Err(_) => None,
    }
}

/// Builds the date with `chrono::DateTime::from_timestamp` and writes it with
/// `DateTime::to_rfc3339`. Believed, not proved: the outcome depends on the
/// two numbers alone.
#[verifier::external_body]
fn format_rfc3339(at: Timestamp) -> (r: Option<String>)
    ensures
        match r {
            Some(s) => rfc3339_text(at.secs, at.nanos) == Some(s@),
            None => rfc3339_text(at.secs, at.nanos) is None,
        },
{
    match chrono::DateTime::from_timestamp(at.secs, at.nanos) {
        Some(t) => Some(t.to_rfc3339()),
        None => None,
    }
}

/// Reads the system clock with `chrono::Utc::now`. Nothing is promised of
/// the instant that comes back. chrono panics where the clock is set before
/// 1970.
#[verifier::external_body]
fn utc_now() -> Timestamp {
    let t = chrono::Utc::now();
    Timestamp { secs: t.timestamp(), nanos: t.timestamp_subsec_nanos() }
}

impl Timestamp {
    /// The instant that `text` stands for; `None` where it is no RFC 3339
    /// date and time.
    pub fn parse(text: &str) -> (r: Option<Timestamp>)
        ensures
            r == parsed_instant(text@),
    {
        parse_rfc3339(text)
    }
}

/// An instant together with its RFC 3339 text: the value that a synchronized
/// issue is stamped with.
pub struct Stamp {
    at: Timestamp,
    text: String,
}

/// Whether `text` is what chrono writes for `at` and reads back as `at`.
pub open spec fn stamp_agrees(at: Timestamp, text: Seq<char>) -> bool {
    &&& rfc3339_text(at.secs, at.nanos) == Some(text)
    &&& parsed_instant(text) == Some(at)
}

/// Whether `stamp` is what stamping the instant `at` gives: the stamp of
/// `at`, or none where `at` has no text that reads back as `at`.
pub open spec fn stamps(at: Timestamp, stamp: Option<Stamp>) -> bool {
    match stamp {
        Some(s) => s.wf() && s.instant() == at,
        None => forall|text: Seq<char>| !stamp_agrees(at, text),
    }
}

impl Stamp {
    /// Every stamp carries the text of its instant.
    #[verifier::type_invariant]
    spec fn agrees(&self) -> bool {
        stamp_agrees(self.at, self.text@)
    }

    /// The instant of the stamp.
    pub closed spec fn instant(&self) -> Timestamp {
        self.at
    }

    /// The text of the stamp.
    pub closed spec fn rendered(&self) -> Seq<char> {
        self.text@
    }

    /// The text is the instant's, and reads back as the instant.
    pub open spec fn wf(&self) -> bool {
        stamp_agrees(self.instant(), self.rendered())
    }

    /// The stamp of `at`, where `at` has an RFC 3339 text that reads back as
    /// `at`.
    pub fn at(at: Timestamp) -> (r: Option<Stamp>)
        ensures
            match r {
                Some(s) => s.wf() && s.instant() == at,
                None => forall|text: Seq<char>| !stamp_agrees(at, text),
            },
    {
        match format_rfc3339(at) {
            Some(text) => {
                match parse_rfc3339(text.as_str()) {
                    Some(back) => {
                        if back.secs == at.secs && back.nanos == at.nanos {
                            Some(Stamp { at, text })
                        } else {
                            None
                        }
                    },
                    None => None,
                }
            },
            None => None,
        }
    }

    /// The stamp of the instant that the clock shows; `None` only where that
    /// instant has no text that reads back. Which instant the clock shows is
    /// not for this library to say.
    pub fn now() -> (r: Option<Stamp>)
        ensures
            exists|at: Timestamp| #[trigger] stamps(at, r),
            r matches Some(s) ==> s.wf(),
    {
        let at = utc_now();
        let stamp = Stamp::at(at);
        assert(stamps(at, stamp));
        stamp
    }

    /// The instant of the stamp.
    pub fn timestamp(&self) -> (r: Timestamp)
        ensures
            r == self.instant(),
            self.wf(),
    {
        proof {
            use_type_invariant(self);
        }
        self.at
    }

    /// The text of the stamp.
    pub fn as_str(&self) -> (r: &str)
        ensures
            r@ == self.rendered(),
            self.wf(),
    {
        proof {
            use_type_invariant(self);
        }
        self.text.as_str()
    }
}

} // verus!
