//! Hybrid logical clock timestamps.
//!
//! A [`Timestamp`] combines wall-clock milliseconds with a tiebreaker
//! counter and a node identifier.  Used as a clock, it advances on local
//! events through [`Timestamp::send`] and merges remote timestamps through
//! [`Timestamp::recv`]; both reject excessive clock drift and counter
//! overflow without mutating the clock.

use vstd::prelude::*;

verus! {

/// Maximum lead of the logical clock over physical time, in milliseconds.
pub const MAX_DRIFT: i64 = 60_000;

/// A hybrid logical clock timestamp: wall-clock milliseconds, a tiebreaker
/// counter for events within one millisecond, and the node identifier of
/// the replica that produced it.
#[derive(Debug, PartialEq, Clone)]
pub struct Timestamp {
    pub millis: i64,
    pub counter: u16,
    pub node: String,
}

/// Milliseconds since the Unix epoch, as a plain value.
#[derive(Debug, PartialEq, Clone)]
pub struct Epoch(pub i64);

/// Errors surfaced by [`Timestamp::send`] and [`Timestamp::recv`].
#[derive(Debug, PartialEq)]
pub enum TimestampError {
    /// The logical clock would run more than [`MAX_DRIFT`] ms ahead of the
    /// supplied physical time: `(observed_logical, phys, max_drift)`.
    ClockDriftError(i64, i64, i64),
    /// The tiebreaker counter would exceed `u16::MAX` within one millisecond.
    OverflowError,
    /// An incoming message claims the local node's identifier.
    DuplicateNodeError(String),
}

/// Largest millisecond value still formatted with a four-digit year
/// (the last millisecond of 9999-12-31 UTC).
pub const MAX_CANONICAL_MILLIS: i64 = 253_402_300_799_999;

/// What chrono's RFC 3339 formatter produces for a millisecond value:
/// `YYYY-MM-DDTHH:MM:SS.mmmZ`, a function of the milliseconds alone.
pub uninterp spec fn rfc3339_millis_chars(ms: i64) -> Seq<char>;

/// What the MurmurHash3 x86 32-bit algorithm with seed 0 digests from
/// the UTF-8 bytes of a character sequence.
pub uninterp spec fn murmur3_32_of(s: Seq<char>) -> u32;

/// The character of one upper-case hexadecimal digit.
pub open spec fn hex_digit_char(d: int) -> char {
    if d == 0 {
        '0'
    } else if d == 1 {
        '1'
    } else if d == 2 {
        '2'
    } else if d == 3 {
        '3'
    } else if d == 4 {
        '4'
    } else if d == 5 {
        '5'
    } else if d == 6 {
        '6'
    } else if d == 7 {
        '7'
    } else if d == 8 {
        '8'
    } else if d == 9 {
        '9'
    } else if d == 10 {
        'A'
    } else if d == 11 {
        'B'
    } else if d == 12 {
        'C'
    } else if d == 13 {
        'D'
    } else if d == 14 {
        'E'
    } else {
        'F'
    }
}

/// The counter as exactly four upper-case hexadecimal digit characters.
pub open spec fn hex4_chars(c: u16) -> Seq<char> {
    seq![
        hex_digit_char(c as int / 4096),
        hex_digit_char((c as int / 256) % 16),
        hex_digit_char((c as int / 16) % 16),
        hex_digit_char(c as int % 16),
    ]
}

/// The node identifier left-padded with `'0'` to width 16.
pub open spec fn pad_node_chars(node: Seq<char>) -> Seq<char> {
    if node.len() >= 16 {
        node
    } else {
        Seq::new((16 - node.len()) as nat, |i: int| '0') + node
    }
}

/// The canonical serialization of a timestamp:
/// `<rfc3339-millis>-<HHHH>-<node-16>`.
pub open spec fn canonical_chars(t: Timestamp) -> Seq<char> {
    rfc3339_millis_chars(t.millis) + seq!['-'] + hex4_chars(t.counter) + seq!['-']
        + pad_node_chars(t.node@)
}

/// The 32-bit hash of a timestamp: MurmurHash3 (seed 0) over the UTF-8
/// bytes of its canonical serialization.
pub open spec fn hash_of(t: Timestamp) -> u32 {
    murmur3_32_of(canonical_chars(t))
}

/// Relies on chrono's `DateTime::from_timestamp_millis` and
/// `DateTime::to_rfc3339_opts` with millisecond precision and the `Z`
/// suffix: within the four-digit-year range the former is `Some`, and
/// the formatted string is a function of the millisecond value alone.
#[verifier::external_body]
fn rfc3339_millis_string(ms: i64) -> (r: String)
    requires
        0 <= ms <= MAX_CANONICAL_MILLIS,
    ensures
        r@ == rfc3339_millis_chars(ms),
{
    let dt = chrono::DateTime::from_timestamp_millis(ms).unwrap();
    dt.to_rfc3339_opts(chrono::SecondsFormat::Millis, true)
}

/// Relies on murmur3's `murmur3_32` with seed 0: reading from an
/// in-memory cursor cannot fail, and the digest is a function of the
/// bytes alone.
#[verifier::external_body]
fn murmur3_32_seed0(s: &str) -> (r: u32)
    ensures
        r == murmur3_32_of(s@),
{
    let mut buffer = std::io::Cursor::new(s.as_bytes());
    murmur3::murmur3_32(&mut buffer, 0).unwrap_or(0)
}

/// Relies on uuid's `Uuid::new_v4` and its `Simple` formatter: the
/// simple form of a UUID is exactly 32 hexadecimal characters.
#[verifier::external_body]
fn uuid_v4_simple() -> (r: String)
    ensures
        r@.len() == 32,
{
    uuid::Uuid::new_v4().simple().to_string()
}

/// Generates a fresh 16-character client identifier: the tail of a
/// random version-4 UUID written without hyphens.
pub fn make_client_id() -> (r: String)
    ensures
        r@.len() == 16,
{
    let u = uuid_v4_simple();
    let tail = u.as_str().substring_char(16, 32);
    tail.to_owned()
}

/// Appends the character of one upper-case hexadecimal digit to `s`.
fn push_hex(s: &mut String, d: u16)
    requires
        d < 16,
    ensures
        final(s)@ == old(s)@ + seq![hex_digit_char(d as int)],
{
    proof {
        reveal_strlit("0");
        reveal_strlit("1");
        reveal_strlit("2");
        reveal_strlit("3");
        reveal_strlit("4");
        reveal_strlit("5");
        reveal_strlit("6");
        reveal_strlit("7");
        reveal_strlit("8");
        reveal_strlit("9");
        reveal_strlit("A");
        reveal_strlit("B");
        reveal_strlit("C");
        reveal_strlit("D");
        reveal_strlit("E");
        reveal_strlit("F");
    }
    if d == 0 {
        s.append("0");
    } else if d == 1 {
        s.append("1");
    } else if d == 2 {
        s.append("2");
    } else if d == 3 {
        s.append("3");
    } else if d == 4 {
        s.append("4");
    } else if d == 5 {
        s.append("5");
    } else if d == 6 {
        s.append("6");
    } else if d == 7 {
        s.append("7");
    } else if d == 8 {
        s.append("8");
    } else if d == 9 {
        s.append("9");
    } else if d == 10 {
        s.append("A");
    } else if d == 11 {
        s.append("B");
    } else if d == 12 {
        s.append("C");
    } else if d == 13 {
        s.append("D");
    } else if d == 14 {
        s.append("E");
    } else {
        s.append("F");
    }
    proof {
        assert(s@ =~= old(s)@ + seq![hex_digit_char(d as int)]);
    }
}

/// The clock value produced by a local event at physical time `phys`,
/// or the error that rejects it.  The clock itself is left unchanged by
/// an error.
pub open spec fn send_spec(t: Timestamp, phys: i64) -> Result<Timestamp, TimestampError> {
    let l_old = t.millis as int;
    let l_new = if phys > t.millis { phys as int } else { l_old };
    if l_new == l_old && t.counter == u16::MAX {
        Err(TimestampError::OverflowError)
    } else if l_new - phys > MAX_DRIFT {
        Err(TimestampError::ClockDriftError(l_new as i64, phys, MAX_DRIFT))
    } else {
        Ok(Timestamp {
            millis: l_new as i64,
            counter: if l_new == l_old { (t.counter + 1) as u16 } else { 0u16 },
            node: t.node,
        })
    }
}

/// The clock value produced by merging the remote timestamp `msg` at
/// physical time `phys`, or the error that rejects it.
pub open spec fn recv_spec(t: Timestamp, msg: Timestamp, phys: i64) -> Result<
    Timestamp,
    TimestampError,
> {
    if msg.node@ == t.node@ {
        Err(TimestampError::DuplicateNodeError(t.node))
    } else if msg.millis > phys && msg.millis - phys > MAX_DRIFT {
        Err(TimestampError::ClockDriftError(msg.millis, phys, MAX_DRIFT))
    } else {
        let l_old = t.millis as int;
        let l_msg = msg.millis as int;
        let lm = if phys > t.millis { phys as int } else { l_old };
        let l_new = if l_msg > lm { l_msg } else { lm };
        let c_max = if t.counter >= msg.counter { t.counter } else { msg.counter };
        if l_new == l_old && l_new == l_msg && c_max == u16::MAX {
            Err(TimestampError::OverflowError)
        } else if l_new == l_old && l_new != l_msg && t.counter == u16::MAX {
            Err(TimestampError::OverflowError)
        } else if l_new != l_old && l_new == l_msg && msg.counter == u16::MAX {
            Err(TimestampError::OverflowError)
        } else if l_new > phys && l_new - phys > MAX_DRIFT {
            Err(TimestampError::ClockDriftError(l_new as i64, phys, MAX_DRIFT))
        } else {
            let c_new = if l_new == l_old && l_new == l_msg {
                (c_max + 1) as u16
            } else if l_new == l_old {
                (t.counter + 1) as u16
            } else if l_new == l_msg {
                (msg.counter + 1) as u16
            } else {
                0u16
            };
            Ok(Timestamp { millis: l_new as i64, counter: c_new, node: t.node })
        }
    }
}

impl Timestamp {
    /// Builds a timestamp from its three components.
    pub fn new(millis: i64, counter: u16, node: String) -> (r: Self)
        ensures
            r.millis == millis,
            r.counter == counter,
            r.node@ == node@,
    {
        Timestamp { millis, counter, node }
    }

    /// The minute bucket of this timestamp: whole minutes since the Unix
    /// epoch.
    pub fn ts_minutes(&self) -> (r: i64)
        requires
            0 <= self.millis,
        ensures
            r == self.millis as int / 60_000,
    {
        let m = self.millis as u64;
        proof {
            assert(m / 60_000 == self.millis as int / 60_000);
        }
        (m / 60_000u64) as i64
    }

    /// The wall-clock component, in milliseconds since the Unix epoch.
    pub fn millis(&self) -> (r: i64)
        ensures
            r == self.millis,
    {
        self.millis
    }

    /// The tiebreaker counter within one millisecond.
    pub fn counter(&self) -> (r: u16)
        ensures
            r == self.counter,
    {
        self.counter
    }

    /// The node identifier of the replica that produced this timestamp.
    pub fn node(&self) -> (r: &str)
        ensures
            r@ == self.node@,
    {
        self.node.as_str()
    }

    /// The canonical serialization: RFC 3339 milliseconds with the `Z`
    /// suffix, the counter as four upper-case hexadecimal digits, and
    /// the node identifier left-padded with zeros to 16 characters.
    pub fn to_canonical(&self) -> (r: String)
        requires
            0 <= self.millis <= MAX_CANONICAL_MILLIS,
        ensures
            r@ == canonical_chars(*self),
    {
        proof {
            reveal_strlit("-");
            reveal_strlit("0");
        }
        let mut s = rfc3339_millis_string(self.millis);
        s.append("-");
        push_hex(&mut s, self.counter / 4096);
        push_hex(&mut s, (self.counter / 256) % 16);
        push_hex(&mut s, (self.counter / 16) % 16);
        push_hex(&mut s, self.counter % 16);
        s.append("-");
        let ghost prefix = s@;
        proof {
            assert(prefix =~= rfc3339_millis_chars(self.millis) + seq!['-'] + hex4_chars(
                self.counter,
            ) + seq!['-']);
        }
        let n = self.node.as_str().unicode_len();
        let mut p = n;
        while p < 16
            invariant
                n == self.node@.len(),
                n <= p,
                n < 16 ==> p <= 16,
                n >= 16 ==> p == n,
                s@ =~= prefix + Seq::new((p - n) as nat, |i: int| '0'),
            decreases 16 - p,
        {
            s.append("0");
            p = p + 1;
            proof {
                reveal_strlit("0");
                assert(s@ =~= prefix + Seq::new((p - n) as nat, |i: int| '0'));
            }
        }
        s.append(self.node.as_str());
        proof {
            assert(s@ =~= canonical_chars(*self));
        }
        s
    }

    /// The 32-bit MurmurHash3 (seed 0) of the canonical serialization.
    pub fn hash(&self) -> (r: u32)
        requires
            0 <= self.millis <= MAX_CANONICAL_MILLIS,
        ensures
            r == hash_of(*self),
    {
        let timestamp_str = self.to_canonical();
        murmur3_32_seed0(timestamp_str.as_str())
    }

    /// Advances the clock for a local event at physical time `phys` and
    /// returns a copy of the resulting timestamp.  On error the clock is
    /// unchanged.
    pub fn send(&mut self, phys: i64) -> (r: Result<Timestamp, TimestampError>)
        ensures
            r == send_spec(*old(self), phys),
            r matches Ok(t) ==> t == *final(self),
            r is Err ==> *final(self) == *old(self),
    {
        let l_old = self.millis;
        let c_old = self.counter;

        let l_new = if phys > l_old {
            phys
        } else {
            l_old
        };
        let c_new: u16 = if l_old == l_new {
            if c_old == u16::MAX {
                return Err(TimestampError::OverflowError);
            }
            c_old + 1
        } else {
            0
        };

        if l_new >= i64::MIN + MAX_DRIFT && phys < l_new - MAX_DRIFT {
            return Err(TimestampError::ClockDriftError(l_new, phys, MAX_DRIFT));
        }
        proof {
            assert(l_new as int - phys as int <= MAX_DRIFT);
        }

        self.millis = l_new;
        self.counter = c_new;

        Ok(Timestamp { millis: l_new, counter: c_new, node: self.node.clone() })
    }

    /// Merges the incoming remote timestamp `msg` at physical time `phys`
    /// and returns a copy of the advanced clock.  On error the clock is
    /// unchanged.
    pub fn recv(&mut self, msg: &Timestamp, phys: i64) -> (r: Result<Timestamp, TimestampError>)
        ensures
            r == recv_spec(*old(self), *msg, phys),
            r matches Ok(t) ==> t == *final(self),
            r is Err ==> *final(self) == *old(self),
    {
        let l_msg = msg.millis;
        let c_msg = msg.counter;

        if msg.node == self.node {
            return Err(TimestampError::DuplicateNodeError(self.node.clone()));
        }

        if l_msg > phys && l_msg >= i64::MIN + MAX_DRIFT && phys < l_msg - MAX_DRIFT {
            return Err(TimestampError::ClockDriftError(l_msg, phys, MAX_DRIFT));
        }
        proof {
            assert(!(l_msg > phys && l_msg as int - phys as int > MAX_DRIFT));
        }

        let l_old = self.millis;
        let c_old = self.counter;

        let lm = if phys > l_old {
            phys
        } else {
            l_old
        };
        let l_new = if l_msg > lm {
            l_msg
        } else {
            lm
        };

        let c_new: u16 = if l_new == l_old && l_new == l_msg {
            let c_max = if c_old >= c_msg {
                c_old
            } else {
                c_msg
            };
            if c_max == u16::MAX {
                return Err(TimestampError::OverflowError);
            }
            c_max + 1
        } else if l_new == l_old {
            if c_old == u16::MAX {
                return Err(TimestampError::OverflowError);
            }
            c_old + 1
        } else if l_new == l_msg {
            if c_msg == u16::MAX {
                return Err(TimestampError::OverflowError);
            }
            c_msg + 1
        } else {
            0
        };

        if l_new > phys && l_new >= i64::MIN + MAX_DRIFT && phys < l_new - MAX_DRIFT {
            return Err(TimestampError::ClockDriftError(l_new, phys, MAX_DRIFT));
        }
        proof {
            assert(!(l_new > phys && l_new as int - phys as int > MAX_DRIFT));
        }

        self.millis = l_new;
        self.counter = c_new;

        Ok(Timestamp { millis: l_new, counter: c_new, node: self.node.clone() })
    }

    /// Parsing of canonical strings back into timestamps is not provided;
    /// this always answers `None`.
    pub fn parse(s: &str) -> (r: Option<Self>)
        ensures
            r is None,
    {
        None
    }
}

/// Law: a successful local event advances the clock to at least both the
/// previous logical time and the supplied physical time, strictly
/// increases the `(millis, counter)` pair, and keeps the node identifier.
pub proof fn lemma_send_monotonic(t: Timestamp, phys: i64)
    requires
        send_spec(t, phys) is Ok,
    ensures
        ({
            let r = send_spec(t, phys)->Ok_0;
            &&& r.millis >= t.millis
            &&& r.millis >= phys
            &&& r.millis > t.millis || (r.millis == t.millis && r.counter > t.counter)
            &&& r.node == t.node
        }),
{
}

/// Law: a successful merge of a remote timestamp also advances the clock
/// to at least the previous logical time, the physical time and the
/// message's time, and strictly increases the `(millis, counter)` pair.
pub proof fn lemma_recv_monotonic(t: Timestamp, msg: Timestamp, phys: i64)
    requires
        recv_spec(t, msg, phys) is Ok,
    ensures
        ({
            let r = recv_spec(t, msg, phys)->Ok_0;
            &&& r.millis >= t.millis
            &&& r.millis >= phys
            &&& r.millis >= msg.millis
            &&& r.millis > t.millis || (r.millis == t.millis && r.counter > t.counter)
            &&& r.node == t.node
        }),
{
}

/// Law: a local event at exactly the clock's own millisecond increments
/// the counter and leaves the millisecond in place.
pub proof fn lemma_send_same_millis_increments(t: Timestamp, phys: i64)
    requires
        phys == t.millis,
        t.counter < u16::MAX,
    ensures
        send_spec(t, phys) == Ok::<Timestamp, TimestampError>(
            Timestamp { millis: t.millis, counter: (t.counter + 1) as u16, node: t.node },
        ),
{
}

/// Law: a local event at a later physical time adopts that time and
/// resets the counter to zero.
pub proof fn lemma_send_phys_advance(t: Timestamp, phys: i64)
    requires
        phys > t.millis,
    ensures
        send_spec(t, phys) == Ok::<Timestamp, TimestampError>(
            Timestamp { millis: phys, counter: 0u16, node: t.node },
        ),
{
}

/// Law: with physical time behind the clock, a local event is accepted
/// exactly when the logical clock stays ahead by at most [`MAX_DRIFT`]
/// milliseconds; one step beyond that it is rejected as clock drift.
pub proof fn lemma_send_drift_boundary(t: Timestamp, phys: i64)
    requires
        phys <= t.millis,
        t.counter < u16::MAX,
    ensures
        t.millis - phys <= MAX_DRIFT ==> send_spec(t, phys) == Ok::<Timestamp, TimestampError>(
            Timestamp { millis: t.millis, counter: (t.counter + 1) as u16, node: t.node },
        ),
        t.millis - phys > MAX_DRIFT ==> send_spec(t, phys) == Err::<Timestamp, TimestampError>(
            TimestampError::ClockDriftError(t.millis, phys, MAX_DRIFT),
        ),
{
}

/// Law: merging a message whose millisecond equals the clock's own, with
/// physical time no further ahead, increments the larger of the two
/// counters.
pub proof fn lemma_recv_equal_times(t: Timestamp, msg: Timestamp, phys: i64)
    requires
        msg.node@ != t.node@,
        msg.millis == t.millis,
        phys <= t.millis,
        t.millis - phys <= MAX_DRIFT,
        t.counter < u16::MAX,
        msg.counter < u16::MAX,
    ensures
        recv_spec(t, msg, phys) == Ok::<Timestamp, TimestampError>(
            Timestamp {
                millis: t.millis,
                counter: ((if t.counter >= msg.counter {
                    t.counter
                } else {
                    msg.counter
                }) + 1) as u16,
                node: t.node,
            },
        ),
{
}

} // verus!
