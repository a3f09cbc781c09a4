use vstd::prelude::*;

verus! {

/// Opaque wall-clock instant carried through snapshots unchanged.
#[verifier::external_type_specification]
#[verifier::external_body]
pub struct ExSystemTime(std::time::SystemTime);

/// Opaque monotonic instant, the moment a [`Snapshot`] was taken.
#[verifier::external_type_specification]
#[verifier::external_body]
pub struct ExInstant(std::time::Instant);

/// `std::time::Instant::now`. Nothing is stated: the value is the clock's.
#[verifier::external_body]
fn instant_now() -> std::time::Instant {
    std::time::Instant::now()
}

/// A value together with the moment it was taken.
pub struct Snapshot<T> {
    pub time: std::time::Instant,
    pub data: T,
}

impl<T> Snapshot<T> {
    /// Stamps `data` with the current instant; `data` itself is kept as given.
    pub fn new(data: T) -> (r: Self)
        ensures
            r.data == data,
    {
        Snapshot { time: instant_now(), data }
    }
}

/// Number of nanoseconds in one second.
pub const NANOS_PER_SEC: u32 = 1_000_000_000;

/// A span of time with nanosecond precision (seconds plus sub-second nanoseconds),
/// as carried by commands, messages and configuration.
#[derive(Clone, Copy, Debug, PartialEq, Eq, Structural)]
pub struct Interval {
    secs: u64,
    nanos: u32,
}

impl Interval {
    #[verifier::type_invariant]
    spec fn wf(self) -> bool {
        self.nanos < NANOS_PER_SEC
    }

    /// Total length in nanoseconds.
    pub closed spec fn total_nanos(self) -> nat {
        (self.secs * 1_000_000_000 + self.nanos) as nat
    }

    pub closed spec fn spec_secs(self) -> u64 {
        self.secs
    }

    pub closed spec fn spec_subsec_nanos(self) -> u32 {
        self.nanos
    }

    /// Every interval is shorter than 2^96 nanoseconds.
    pub proof fn lemma_total_nanos_bound(self)
        ensures
            self.total_nanos() < 0x1_0000_0000_0000_0000_0000_0000,
    {
        assert(self.secs * 1_000_000_000 <= 0xffff_ffff_ffff_ffff * 1_000_000_000) by (nonlinear_arith)
            requires self.secs <= 0xffff_ffff_ffff_ffff;
    }

    /// Two intervals are the same value exactly when they have the same length.
    pub proof fn lemma_eq_iff_same_length(a: Interval, b: Interval)
        requires
            a.spec_subsec_nanos() < NANOS_PER_SEC,
            b.spec_subsec_nanos() < NANOS_PER_SEC,
        ensures
            (a == b) <==> (a.total_nanos() == b.total_nanos()),
    {
        if a.total_nanos() == b.total_nanos() {
            assert(a.secs * 1_000_000_000 + a.nanos == b.secs * 1_000_000_000 + b.nanos);
            if a.secs < b.secs {
                assert(a.secs * 1_000_000_000 + 1_000_000_000 <= b.secs * 1_000_000_000) by (nonlinear_arith)
                    requires a.secs < b.secs;
            } else if b.secs < a.secs {
                assert(b.secs * 1_000_000_000 + 1_000_000_000 <= a.secs * 1_000_000_000) by (nonlinear_arith)
                    requires b.secs < a.secs;
            }
        }
    }

    pub fn new(secs: u64, subsec_nanos: u32) -> (r: Interval)
        requires
            subsec_nanos < NANOS_PER_SEC,
        ensures
            r.spec_secs() == secs,
            r.spec_subsec_nanos() == subsec_nanos,
            r.total_nanos() == secs * 1_000_000_000 + subsec_nanos,
    {
        Interval { secs, nanos: subsec_nanos }
    }

    pub fn from_millis(ms: u64) -> (r: Interval)
        ensures
            r.total_nanos() == ms * 1_000_000,
    {
        let secs = ms / 1000;
        let rem = ms % 1000;
        let nanos = (rem as u32) * 1_000_000;
        proof {
            assert(ms == secs * 1000 + rem) by (nonlinear_arith)
                requires secs == ms / 1000, rem == ms % 1000;
            assert(secs * 1_000_000_000 + rem * 1_000_000 == ms * 1_000_000) by (nonlinear_arith)
                requires ms == secs * 1000 + rem;
        }
        Interval { secs, nanos }
    }

    /// Total length in nanoseconds.
    pub fn as_nanos(&self) -> (r: u128)
        ensures
            r == self.total_nanos(),
    {
        (self.secs as u128) * 1_000_000_000 + (self.nanos as u128)
    }

    /// Whether this interval has zero length.
    pub fn is_zero(&self) -> (r: bool)
        ensures
            r == (self.total_nanos() == 0),
    {
        self.secs == 0 && self.nanos == 0
    }

    /// Whole seconds.
    pub fn as_secs(&self) -> (r: u64)
        ensures
            r == self.spec_secs(),
    {
        self.secs
    }

    /// Nanoseconds beyond the whole seconds.
    pub fn subsec_nanos(&self) -> (r: u32)
        ensures
            r == self.spec_subsec_nanos(),
            r < NANOS_PER_SEC,
    {
        proof {
            use_type_invariant(self);
        }
        self.nanos
    }

    /// Whether this interval is strictly shorter than `other`.
    pub fn is_shorter_than(&self, other: &Interval) -> (r: bool)
        ensures
            r == (self.total_nanos() < other.total_nanos()),
    {
        proof {
            use_type_invariant(self);
            use_type_invariant(other);
            lemma_lexicographic(self.secs, self.nanos, other.secs, other.nanos);
        }
        self.secs < other.secs || (self.secs == other.secs && self.nanos < other.nanos)
    }

    pub closed spec fn spec_from_secs(secs: u64) -> Interval {
        Interval { secs, nanos: 0 }
    }

    pub fn from_secs(secs: u64) -> (r: Interval)
        ensures
            r == Self::spec_from_secs(secs),
            r.total_nanos() == secs * 1_000_000_000,
            r.spec_secs() == secs,
            r.spec_subsec_nanos() == 0,
    {
        Interval { secs, nanos: 0 }
    }
}

/// For sub-second parts below one second, comparing totals is comparing
/// (seconds, nanoseconds) lexicographically.
proof fn lemma_lexicographic(s1: u64, n1: u32, s2: u64, n2: u32)
    requires
        n1 < NANOS_PER_SEC,
        n2 < NANOS_PER_SEC,
    ensures
        (s1 * 1_000_000_000 + n1 < s2 * 1_000_000_000 + n2) == (s1 < s2 || (s1 == s2 && n1 < n2)),
{
    if s1 < s2 {
        assert(s1 * 1_000_000_000 + 1_000_000_000 <= s2 * 1_000_000_000) by (nonlinear_arith)
            requires s1 < s2;
    } else if s2 < s1 {
        assert(s2 * 1_000_000_000 + 1_000_000_000 <= s1 * 1_000_000_000) by (nonlinear_arith)
            requires s2 < s1;
    }
}

} // verus!
