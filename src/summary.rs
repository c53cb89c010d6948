//! A summary of the records of a file: pings per channel, the span of
//! acquisition times, and the distinct ping lengths and sampling intervals.
use vstd::prelude::*;
use crate::model::{Channel, Scaled, SonarDataRecord, Timestamp};

verus! {

/// The acquisition time of a record; unknown records have none.
pub open spec fn record_time<T>(rec: SonarDataRecord<T>) -> Option<Timestamp> {
    match rec {
        SonarDataRecord::Ping(p) => Some(p.timestamp),
        SonarDataRecord::Position(p) => Some(p.timestamp),
        SonarDataRecord::Orientation(o) => Some(o.timestamp),
        SonarDataRecord::Course(c) => Some(c.timestamp),
        SonarDataRecord::Unknown => None,
    }
}

/// A count plus one, held at the largest `u64`.
pub open spec fn bump(n: u64) -> u64 {
    if n == u64::MAX {
        n
    } else {
        (n + 1) as u64
    }
}

/// `s` with `x` added at the end unless it is already there.
pub open spec fn add_distinct<A>(s: Seq<A>, x: A) -> Seq<A> {
    if s.contains(x) {
        s
    } else {
        s.push(x)
    }
}

/// What the records of a file come to
pub struct Summary {
    pub port: u64,
    pub starboard: u64,
    pub other: u64,
    /// The earliest time seen, starting from the time the summary began
    pub start: Timestamp,
    /// The latest time seen, starting from the epoch
    pub end: Timestamp,
    /// The distinct ping lengths, in the order first seen
    pub data_lengths: Vec<usize>,
    /// The distinct ping sampling intervals, in the order first seen
    pub sampling_intervals: Vec<Scaled>,
}

fn add_usize(v: &mut Vec<usize>, x: usize)
    ensures
        final(v)@ == add_distinct(old(v)@, x),
{
    let mut i: usize = 0;
    while i < v.len()
        invariant
            i <= v@.len(),
            v@ == old(v)@,
            forall|j: int| 0 <= j < i ==> v@[j] != x,
        decreases v@.len() - i,
    {
        if v[i] == x {
            assert(v@.contains(x));
            return;
        }
        i += 1;
    }
    v.push(x);
}

fn add_scaled(v: &mut Vec<Scaled>, x: Scaled)
    ensures
        final(v)@ == add_distinct(old(v)@, x),
{
    let mut i: usize = 0;
    while i < v.len()
        invariant
            i <= v@.len(),
            v@ == old(v)@,
            forall|j: int| 0 <= j < i ==> v@[j] != x,
        decreases v@.len() - i,
    {
        if v[i] == x {
            assert(v@.contains(x));
            return;
        }
        i += 1;
    }
    v.push(x);
}

impl Summary {
    /// An empty summary, begun at `now`
    pub fn new(now: Timestamp) -> (r: Summary)
        ensures
            r.port == 0 && r.starboard == 0 && r.other == 0,
            r.start == now,
            r.end == (Timestamp { unix_millis: 0 }),
            r.data_lengths@.len() == 0,
            r.sampling_intervals@.len() == 0,
    {
        Summary {
            port: 0,
            starboard: 0,
            other: 0,
            start: now,
            end: Timestamp { unix_millis: 0 },
            data_lengths: Vec::new(),
            sampling_intervals: Vec::new(),
        }
    }

    /// Take a record into the summary. A time before the start becomes the
    /// start; otherwise a time after the end becomes the end.
    pub fn add<T>(&mut self, rec: &SonarDataRecord<T>)
        ensures
            match *rec {
                SonarDataRecord::Ping(p) => {
                    &&& final(self).port == if p.channel == Channel::Port {
                        bump(old(self).port)
                    } else {
                        old(self).port
                    }
                    &&& final(self).starboard == if p.channel == Channel::Starboard {
                        bump(old(self).starboard)
                    } else {
                        old(self).starboard
                    }
                    &&& final(self).other == if p.channel == Channel::Other {
                        bump(old(self).other)
                    } else {
                        old(self).other
                    }
                    &&& final(self).data_lengths@ == add_distinct(
                        old(self).data_lengths@,
                        p.data@.len() as usize,
                    )
                    &&& final(self).sampling_intervals@ == add_distinct(
                        old(self).sampling_intervals@,
                        p.sampling_interval,
                    )
                },
                _ => {
                    &&& final(self).port == old(self).port
                    &&& final(self).starboard == old(self).starboard
                    &&& final(self).other == old(self).other
                    &&& final(self).data_lengths@ == old(self).data_lengths@
                    &&& final(self).sampling_intervals@ == old(self).sampling_intervals@
                },
            },
            match record_time(*rec) {
                Some(t) => if t.unix_millis < old(self).start.unix_millis {
                    final(self).start == t && final(self).end == old(self).end
                } else if t.unix_millis > old(self).end.unix_millis {
                    final(self).start == old(self).start && final(self).end == t
                } else {
                    final(self).start == old(self).start && final(self).end == old(self).end
                },
                None => final(self).start == old(self).start && final(self).end == old(self).end,
            },
    {
        let t = match rec {
            SonarDataRecord::Ping(p) => {
                match p.channel {
                    Channel::Port => if self.port < u64::MAX {
                        self.port = self.port + 1;
                    },
                    Channel::Starboard => if self.starboard < u64::MAX {
                        self.starboard = self.starboard + 1;
                    },
                    Channel::Other => if self.other < u64::MAX {
                        self.other = self.other + 1;
                    },
                }
                add_usize(&mut self.data_lengths, p.data.len());
                add_scaled(&mut self.sampling_intervals, p.sampling_interval);
                Some(p.timestamp)
            },
            SonarDataRecord::Position(p) => Some(p.timestamp),
            SonarDataRecord::Orientation(o) => Some(o.timestamp),
            SonarDataRecord::Course(c) => Some(c.timestamp),
            SonarDataRecord::Unknown => None,
        };
        match t {
            Some(t) => {
                if t.unix_millis < self.start.unix_millis {
                    self.start = t;
                } else if t.unix_millis > self.end.unix_millis {
                    self.end = t;
                }
            },
            None => {},
        }
    }
}

} // verus!
