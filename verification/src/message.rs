use vstd::prelude::*;

use std::time::{SystemTime, UNIX_EPOCH};

verus! {

#[verifier::external_type_specification]
#[verifier::external_body]
pub struct ExSystemTime(SystemTime);

/// When a message was written: seconds and nanoseconds since the Unix epoch
/// (UTC), as a `chrono::DateTime<Utc>` holds them.
#[derive(Clone, Copy, Debug, PartialEq, Eq)]
pub struct SendTime {
    pub seconds: i64,
    pub nanos: u32,
}

/// The system clock now: `SystemTime::now`.
///
/// Trusted for nothing but its type: the reading rests on the clock. (std
/// reads the clock with one system call, which it documents as not failing on
/// the platforms it supports; no precondition could rule that out.)
#[verifier::external_body]
fn system_now() -> SystemTime {
    SystemTime::now()
}

/// How long after the Unix epoch a clock reading is: `SystemTime::duration_since`
/// with `UNIX_EPOCH`, as whole seconds and the nanoseconds beyond them;
/// `None` for a reading before the epoch.
///
/// Trusted: the nanoseconds are below one billion, as `Duration::subsec_nanos`
/// documents.
#[verifier::external_body]
fn since_unix_epoch(t: &SystemTime) -> (r: Option<(u64, u32)>)
    ensures
        r matches Some(d) ==> d.1 < 1_000_000_000,
{
    match t.duration_since(UNIX_EPOCH) {
        Ok(d) => Some((d.as_secs(), d.subsec_nanos())),
        Err(_) => None,
    }
}

/// The last second, counted from the Unix epoch, that chrono holds: the end of
/// December 31 of the year 262142, its latest date.
pub const CHRONO_MAX_SECONDS: i64 = 8_210_266_876_799i64;

/// chrono holds the instant `secs` seconds (at least zero) and `nanos`
/// nanoseconds after the Unix epoch: the date is within its range, the
/// nanoseconds are below two billion, and nanoseconds from one billion up
/// (a leap second) fall only in the last second of a minute.
pub open spec fn chrono_holds(secs: int, nanos: u32) -> bool {
    &&& 0 <= secs <= CHRONO_MAX_SECONDS
    &&& nanos < 2_000_000_000
    &&& (nanos < 1_000_000_000 || secs % 60 == 59)
}

/// The UTC instant `secs` seconds and `nanos` nanoseconds after the Unix epoch,
/// as `chrono::DateTime::from_timestamp` makes it, read back with `timestamp`
/// and `timestamp_subsec_nanos`; `None` where chrono cannot hold it.
///
/// Trusted: an instant that chrono holds reads back as the same seconds and
/// nanoseconds, and for seconds of zero or more chrono holds exactly the
/// instants of `chrono_holds`. chrono's `from_timestamp` builds the date from
/// the day number (kept up to December 31 of the year `MAX_YEAR`, 262142) and
/// the time of day with `NaiveTime::from_num_seconds_from_midnight_opt`, which
/// refuses nanoseconds of two billion or more, and nanoseconds of one billion
/// or more outside the last second of a minute. Of negative seconds nothing
/// is said beyond the read-back.
#[verifier::external_body]
fn utc_timestamp(secs: i64, nanos: u32) -> (r: Option<(i64, u32)>)
    ensures
        r is Some ==> r == Some((secs, nanos)),
        secs >= 0 ==> (r is Some <==> chrono_holds(secs as int, nanos)),
{
    chrono::DateTime::from_timestamp(secs, nanos).map(|t| (t.timestamp(), t.timestamp_subsec_nanos()))
}

/// A message typed by the user, with the time it was written.
pub struct Message {
    pub message: String,
    send_time: SendTime,
}

impl Message {
    /// The text of the message.
    pub closed spec fn text(&self) -> Seq<char> {
        self.message@
    }

    /// When the message was written.
    pub closed spec fn sent_at(&self) -> SendTime {
        self.send_time
    }

    /// A message with this text, written at `t`.
    pub fn new_at(msg: String, t: SendTime) -> (r: Message)
        ensures
            r.text() == msg@,
            r.sent_at() == t,
    {
        Message { message: msg, send_time: t }
    }

    /// A message with this text, stamped `secs` seconds and `nanos`
    /// nanoseconds after the Unix epoch; `None` where chrono cannot hold that
    /// instant.
    pub fn stamped(msg: String, secs: u64, nanos: u32) -> (r: Option<Message>)
        ensures
            r is Some <==> chrono_holds(secs as int, nanos),
            r matches Some(m) ==> m.text() == msg@ && m.sent_at() == (SendTime {
                seconds: secs as i64,
                nanos,
            }),
    {
        if secs > 0x7fff_ffff_ffff_ffffu64 {
            return None;
        }
        match utc_timestamp(secs as i64, nanos) {
            Some((seconds, nanos)) => Some(Message::new_at(msg, SendTime { seconds, nanos })),
            None => None,
        }
    }

    /// A message with this text, stamped with the current time; `None` where
    /// the clock reads before the Unix epoch or beyond what chrono holds.
    pub fn new(msg: String) -> (r: Option<Message>)
        ensures
            r matches Some(m) ==> m.text() == msg@ && m.sent_at().seconds >= 0 && m.sent_at().nanos
                < 1_000_000_000,
    {
        let now = system_now();
        match since_unix_epoch(&now) {
            Some((secs, nanos)) => Message::stamped(msg, secs, nanos),
            None => None,
        }
    }

    /// The text of the message.
    pub fn as_text(&self) -> (r: &str)
        ensures
            r@ == self.text(),
    {
        self.message.as_str()
    }

    /// When the message was written.
    pub fn send_time(&self) -> (r: SendTime)
        ensures
            r == self.sent_at(),
    {
        self.send_time
    }
}

} // verus!
