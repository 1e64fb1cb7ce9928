//! Query times, and the header that a stamped message carries.

use vstd::prelude::*;

verus! {

/// Nanoseconds in one second.
pub const NANOS_PER_SEC: i64 = 1_000_000_000;

/// The position of a stamp on a single integer timeline, in nanoseconds.
pub open spec fn stamp_nanos(sec: i32, nanosec: u32) -> int {
    sec * 1_000_000_000 + nanosec
}

/// Computes [`stamp_nanos`]; every stamp fits.
pub fn nanos_of(sec: i32, nanosec: u32) -> (t: i64)
    ensures
        t == stamp_nanos(sec, nanosec),
{
    let s: i64 = sec as i64;
    let n: i64 = nanosec as i64;
    s * NANOS_PER_SEC + n
}

/// A stamp as it travels in a message: seconds and nanoseconds.
#[derive(Clone, Copy, Debug, PartialEq, Eq, Structural)]
pub struct Tf2Time {
    pub sec: i32,
    pub nanosec: u32,
}

/// A message that carries a frame name and a stamp.
pub trait HasHeader {
    /// The frame that the message is expressed in.
    spec fn header_frame(&self) -> Seq<char>;

    /// The stamp of the message, as seconds and nanoseconds.
    spec fn header_stamp(&self) -> (i32, u32);

    fn frame_id(&self) -> (r: &str)
        ensures
            r@ == self.header_frame(),
    ;

    fn stamp(&self) -> (r: (i32, u32))
        ensures
            r == self.header_stamp(),
    ;
}

/// The time a query asks about.
#[derive(Clone, Copy, Debug, PartialEq, Eq, Structural)]
pub enum LookupTime {
    /// The newest sample of every edge.
    Latest,
    /// An explicit stamp. The stamp with both fields zero means `Latest`.
    Time { sec: i32, nanosec: u32 },
}

impl LookupTime {
    /// The instant asked about in nanoseconds, or `None` where the newest
    /// sample of every edge is asked for: that is `Latest`, and the stamp
    /// whose seconds and nanoseconds are both zero.
    pub open spec fn instant(self) -> Option<int> {
        match self {
            LookupTime::Latest => None,
            LookupTime::Time { sec, nanosec } => if sec == 0 && nanosec == 0 {
                None
            } else {
                Some(stamp_nanos(sec, nanosec))
            },
        }
    }

    /// Computes [`LookupTime::instant`].
    pub fn resolve_instant(self) -> (t: Option<i64>)
        ensures
            t is Some <==> self.instant() is Some,
            t is Some ==> t->Some_0 == self.instant()->Some_0,
    {
        match self {
            LookupTime::Latest => None,
            LookupTime::Time { sec, nanosec } => if sec == 0 && nanosec == 0 {
                None
            } else {
                Some(nanos_of(sec, nanosec))
            },
        }
    }

    /// The query time that asks about the stamp of `msg`.
    pub fn from_msg<M: HasHeader>(msg: &M) -> (t: LookupTime)
        ensures
            t == (LookupTime::Time { sec: msg.header_stamp().0, nanosec: msg.header_stamp().1 }),
    {
        let (sec, nanosec) = msg.stamp();
        LookupTime::Time { sec, nanosec }
    }

    /// The stamp that stands for this query time in a message: zero seconds
    /// and zero nanoseconds for `Latest`.
    pub fn to_ffi(self) -> (t: Tf2Time)
        ensures
            t == match self {
                LookupTime::Latest => (Tf2Time { sec: 0, nanosec: 0 }),
                LookupTime::Time { sec, nanosec } => (Tf2Time { sec, nanosec }),
            },
    {
        match self {
            LookupTime::Latest => Tf2Time { sec: 0, nanosec: 0 },
            LookupTime::Time { sec, nanosec } => Tf2Time { sec, nanosec },
        }
    }
}

/// How the time of a query about a message is chosen.
#[derive(Clone, Copy, Debug)]
pub enum TimeSpec {
    /// The newest sample of every edge.
    Latest,
    /// An explicit stamp.
    Stamp { sec: i32, nanosec: u32 },
    /// The stamp of the message itself.
    FromMsg,
}

impl TimeSpec {
    /// The query time that this choice means for `msg`.
    pub fn resolve<T: HasHeader>(self, msg: &T) -> (t: LookupTime)
        ensures
            t == match self {
                TimeSpec::Latest => LookupTime::Latest,
                TimeSpec::Stamp { sec, nanosec } => (LookupTime::Time { sec, nanosec }),
                TimeSpec::FromMsg => (LookupTime::Time {
                    sec: msg.header_stamp().0,
                    nanosec: msg.header_stamp().1,
                }),
            },
    {
        match self {
            TimeSpec::Latest => LookupTime::Latest,
            TimeSpec::Stamp { sec, nanosec } => LookupTime::Time { sec, nanosec },
            TimeSpec::FromMsg => {
                let (sec, nanosec) = msg.stamp();
                LookupTime::Time { sec, nanosec }
            },
        }
    }
}

} // verus!
