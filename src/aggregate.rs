//! The interface of the aggregates that a key store rebuilds from events.
use vstd::prelude::*;

verus! {

/// Why an aggregate could not be started from its init event.
#[derive(Clone, Copy, Debug, PartialEq, Eq, Structural)]
pub enum InitFailure {
    /// The init event is not valid JSON of the event type.
    Unparsable,
    /// The init event was read but the aggregate refuses it.
    Rejected,
}

/// A consistency boundary whose state is the fold of its events. Events and
/// snapshots reach it as their JSON text.
pub trait Aggregate: Sized {
    /// The number of the next event it expects.
    spec fn spec_version(&self) -> u64;

    /// The aggregate started from an init event.
    spec fn initialised(event: Seq<u8>) -> Result<Self, InitFailure>;

    /// The aggregate a snapshot holds, if it parses.
    spec fn restored(snapshot: Seq<u8>) -> Option<Self>;

    /// The aggregate after an event, if the event parses.
    spec fn applied(&self, event: Seq<u8>) -> Option<Self>;

    /// The snapshot text of the aggregate.
    spec fn snapshot(&self) -> Seq<u8>;

    /// Restoring the snapshot text of an aggregate gives it back.
    proof fn lemma_snapshot_restores(&self)
        ensures
            Self::restored(self.snapshot()) == Some(*self),
    ;

    fn version(&self) -> (r: u64)
        ensures
            r == self.spec_version(),
    ;

    fn init(event: &Vec<u8>) -> (r: Result<Self, InitFailure>)
        ensures
            r == Self::initialised(event@),
    ;

    fn restore(snapshot: &Vec<u8>) -> (r: Option<Self>)
        ensures
            r == Self::restored(snapshot@),
    ;

    /// Applies an event; `false`, with nothing changed, where it does not parse.
    fn apply(&mut self, event: &Vec<u8>) -> (r: bool)
        requires
            old(self).spec_version() < u64::MAX,
        ensures
            r == old(self).applied(event@) is Some,
            r ==> Some(*final(self)) == old(self).applied(event@),
            r ==> final(self).spec_version() == old(self).spec_version() + 1,
            !r ==> *final(self) == *old(self),
    ;

    fn to_snapshot(&self) -> (r: Vec<u8>)
        ensures
            r@ == self.snapshot(),
    ;
}

/// The aggregate after applying, from its version on, each event of `log`
/// in turn until the log ends; `None` where an event does not parse.
pub open spec fn replay<A: Aggregate>(a: A, log: Map<u64, Seq<u8>>) -> Option<A>
    decreases u64::MAX - a.spec_version(),
{
    let v = a.spec_version();
    if !log.contains_key(v) || v == u64::MAX {
        Some(a)
    } else {
        match a.applied(log[v]) {
            None => None,
            Some(n) => if n.spec_version() == v + 1 {
                replay(n, log)
            } else {
                None
            },
        }
    }
}

/// Replaying again what a replay gave changes nothing.
pub proof fn lemma_replay_settled<A: Aggregate>(a: A, log: Map<u64, Seq<u8>>, b: A)
    requires
        replay(a, log) == Some(b),
    ensures
        replay(b, log) == Some(b),
    decreases u64::MAX - a.spec_version(),
{
    let v = a.spec_version();
    if log.contains_key(v) && v != u64::MAX {
        let n = a.applied(log[v])->Some_0;
        lemma_replay_settled(n, log, b);
    }
}

/// The aggregate rebuilt from an optional snapshot and an event log: the
/// snapshot where it parses, else the init event (version 0) where there is
/// one, brought up to date by replay. `None` where that fails; `Some(None)`
/// where there is nothing to start from.
pub open spec fn rebuilt<A: Aggregate>(snapshot: Option<Seq<u8>>, log: Map<u64, Seq<u8>>) -> Option<Option<A>> {
    let base = match snapshot {
        Some(s) => A::restored(s),
        None => None,
    };
    match base {
        Some(a) => match replay(a, log) {
            Some(b) => Some(Some(b)),
            None => None,
        },
        None => if !log.contains_key(0) {
            Some(None)
        } else {
            match A::initialised(log[0]) {
                Err(_) => None,
                Ok(a) => match replay(a, log) {
                    Some(b) => Some(Some(b)),
                    None => None,
                },
            }
        },
    }
}

} // verus!

verus! {

/// The decimal digits of a number as ASCII bytes.
pub open spec fn decimal_bytes(n: nat) -> Seq<u8>
    decreases n,
{
    if n < 10 {
        seq![(48 + n) as u8]
    } else {
        decimal_bytes(n / 10).push((48 + n % 10) as u8)
    }
}

/// The number that ASCII decimal digits spell; `None` for anything else.
pub open spec fn digits_value(b: Seq<u8>) -> Option<nat>
    decreases b.len(),
{
    if b.len() == 0 {
        None
    } else if !(48 <= b.last() < 58) {
        None
    } else if b.len() == 1 {
        Some((b.last() - 48) as nat)
    } else {
        match digits_value(b.drop_last()) {
            Some(v) => Some(v * 10 + (b.last() - 48) as nat),
            None => None,
        }
    }
}

pub proof fn lemma_decimal_bytes_value(n: nat)
    ensures
        digits_value(decimal_bytes(n)) == Some(n),
    decreases n,
{
    if n >= 10 {
        lemma_decimal_bytes_value(n / 10);
        assert(decimal_bytes(n).drop_last() == decimal_bytes(n / 10));
        lemma_decimal_bytes_nonempty(n / 10);
    }
}

proof fn lemma_decimal_bytes_nonempty(n: nat)
    ensures
        decimal_bytes(n).len() >= 1,
    decreases n,
{
    if n >= 10 {
        lemma_decimal_bytes_nonempty(n / 10);
    }
}

/// A longer run of digits spells no smaller a number.
proof fn lemma_digits_grow(b: Seq<u8>, j: int)
    requires
        0 < j <= b.len(),
        digits_value(b.take(j)) is Some,
        digits_value(b) is Some,
    ensures
        digits_value(b)->Some_0 >= digits_value(b.take(j))->Some_0,
    decreases b.len(),
{
    if j < b.len() {
        assert(b.drop_last().take(j) == b.take(j));
        lemma_digits_grow(b.drop_last(), j);
    } else {
        assert(b.take(j) == b);
    }
}

fn decimal_byte_vec(n: u64) -> (r: Vec<u8>)
    ensures
        r@ == decimal_bytes(n as nat),
    decreases n,
{
    if n < 10 {
        let mut v = Vec::new();
        v.push((48 + n) as u8);
        v
    } else {
        let mut v = decimal_byte_vec(n / 10);
        v.push((48 + n % 10) as u8);
        v
    }
}

/// The number that ASCII decimal digits spell, where it fits in a `u64`.
pub fn parse_digits(b: &Vec<u8>) -> (r: Option<u64>)
    ensures
        r matches Some(v) ==> digits_value(b@) == Some(v as nat),
        r is None ==> digits_value(b@) is None || digits_value(b@)->Some_0 > u64::MAX,
{
    if b.len() == 0 {
        return None;
    }
    let mut v: u64 = 0;
    let mut i: usize = 0;
    while i < b.len()
        invariant
            0 <= i <= b.len(),
            b.len() > 0,
            i > 0 ==> digits_value(b@.take(i as int)) == Some(v as nat),
            i == 0 ==> v == 0,
        decreases b.len() - i,
    {
        let c = b[i];
        assert(b@.take(i + 1).drop_last() == b@.take(i as int));
        assert(b@.take(i + 1).last() == c);
        if c < 48 || c >= 58 {
            proof {
                lemma_digits_none_after(b@, i as int + 1);
            }
            return None;
        }
        let d = (c - 48) as u64;
        if v > (u64::MAX - d) / 10 {
            proof {
                assert(v * 10 + d > u64::MAX) by (nonlinear_arith)
                    requires
                        v > (u64::MAX - d) / 10,
                        d < 10,
                ;
                if digits_value(b@) is Some {
                    lemma_digits_grow(b@, i as int + 1);
                }
            }
            return None;
        }
        v = v * 10 + d;
        i = i + 1;
    }
    assert(b@.take(b.len() as int) == b@);
    Some(v)
}

/// Digits followed by a non-digit spell nothing.
proof fn lemma_digits_none_after(b: Seq<u8>, j: int)
    requires
        0 < j <= b.len(),
        digits_value(b.take(j)) is None,
    ensures
        digits_value(b) is None,
    decreases b.len(),
{
    if j < b.len() {
        assert(b.drop_last().take(j) == b.take(j));
        lemma_digits_none_after(b.drop_last(), j);
    } else {
        assert(b.take(j) == b);
    }
}

/// An aggregate that holds only how far its event log runs: the version of
/// the next event. Loading it scans the stored events to their true end,
/// which is how a caller reconciles per-aggregate bookkeeping that fell
/// behind the log. Its snapshot text is that version in decimal.
#[derive(Clone, Copy, Debug, PartialEq, Eq, Structural)]
pub struct LogTail {
    pub next: u64,
}

impl Aggregate for LogTail {
    open spec fn spec_version(&self) -> u64 {
        self.next
    }

    open spec fn initialised(event: Seq<u8>) -> Result<Self, InitFailure> {
        Ok(LogTail { next: 1 })
    }

    open spec fn restored(snapshot: Seq<u8>) -> Option<Self> {
        match digits_value(snapshot) {
            Some(v) => if v <= u64::MAX {
                Some(LogTail { next: v as u64 })
            } else {
                None
            },
            None => None,
        }
    }

    open spec fn applied(&self, event: Seq<u8>) -> Option<Self> {
        if self.next < u64::MAX {
            Some(LogTail { next: (self.next + 1) as u64 })
        } else {
            None
        }
    }

    open spec fn snapshot(&self) -> Seq<u8> {
        decimal_bytes(self.next as nat)
    }

    proof fn lemma_snapshot_restores(&self) {
        lemma_decimal_bytes_value(self.next as nat);
    }

    fn version(&self) -> (r: u64) {
        self.next
    }

    fn init(event: &Vec<u8>) -> (r: Result<Self, InitFailure>) {
        Ok(LogTail { next: 1 })
    }

    fn restore(snapshot: &Vec<u8>) -> (r: Option<Self>) {
        match parse_digits(snapshot) {
            Some(v) => Some(LogTail { next: v }),
            None => None,
        }
    }

    fn apply(&mut self, event: &Vec<u8>) -> (r: bool) {
        self.next = self.next + 1;
        true
    }

    fn to_snapshot(&self) -> (r: Vec<u8>) {
        decimal_byte_vec(self.next)
    }
}

} // verus!
