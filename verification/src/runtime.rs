//! Bounded execution primitives: cooperative cancellation, an accounted memory
//! budget whose reservations are released explicitly, and a JSONL spool that
//! keeps only counts and a running SHA-256 of the events it has passed on.
use vstd::prelude::*;

use crate::text::{hex, hex_string, lit, owned};

verus! {

/// The schema identifier carried by every spool summary.
pub const SPOOL_SUMMARY_SCHEMA_V1: &'static str = "tidas.spool-summary.v1";

/// Why a bounded operation stopped.
#[derive(Debug)]
pub enum RuntimeError {
    Cancelled,
    BudgetExceeded { requested: u64, used: u64, limit: u64 },
    QueueDisconnected,
    EventTooLarge { actual: usize, limit: usize },
    SizeOverflow,
    /// An event could not be encoded; the message of the encoder.
    Encode(String),
    /// An event could not be written; the message of the writer.
    Io(String),
}

// ---------------------------------------------------------------------------
// Cancellation
// ---------------------------------------------------------------------------

/// A cancellation flag that operations consult before each unit of work.
pub struct CancellationToken {
    cancelled: bool,
}

impl CancellationToken {
    pub closed spec fn is_set(self) -> bool {
        self.cancelled
    }

    /// A token that has not been cancelled.
    pub fn new() -> (t: Self)
        ensures
            !t.is_set(),
    {
        CancellationToken { cancelled: false }
    }

    /// Requests cancellation; every later check fails.
    pub fn cancel(&mut self)
        ensures
            final(self).is_set(),
    {
        self.cancelled = true;
    }

    pub fn is_cancelled(&self) -> (r: bool)
        ensures
            r == self.is_set(),
    {
        self.cancelled
    }

    /// `Err(Cancelled)` exactly when cancellation was requested.
    pub fn check(&self) -> (r: Result<(), RuntimeError>)
        ensures
            r is Ok <==> !self.is_set(),
            r matches Err(e) ==> e is Cancelled,
    {
        if self.is_cancelled() {
            Err(RuntimeError::Cancelled)
        } else {
            Ok(())
        }
    }
}

impl Default for CancellationToken {
    fn default() -> (t: Self)
        ensures
            !t.is_set(),
    {
        CancellationToken::new()
    }
}

// ---------------------------------------------------------------------------
// Memory budget
// ---------------------------------------------------------------------------

/// The accounting state of a memory budget.
pub struct BudgetState {
    pub limit: nat,
    pub used: nat,
    pub peak: nat,
}

/// The state after a reservation of `bytes` that fits.
pub open spec fn reserved(s: BudgetState, bytes: nat) -> BudgetState {
    BudgetState {
        limit: s.limit,
        used: s.used + bytes,
        peak: if s.peak >= s.used + bytes { s.peak } else { s.used + bytes },
    }
}

/// The state after a reservation of `bytes` is given back.
pub open spec fn released(s: BudgetState, bytes: nat) -> BudgetState {
    BudgetState {
        limit: s.limit,
        used: if s.used >= bytes { (s.used - bytes) as nat } else { 0 },
        peak: s.peak,
    }
}

/// Whether a reservation of `bytes` fits the budget.
pub open spec fn fits(s: BudgetState, bytes: nat) -> bool {
    s.used + bytes <= s.limit
}

/// The well-formed accounting states: usage never exceeds the peak nor the limit.
pub open spec fn budget_wf(s: BudgetState) -> bool {
    s.used <= s.peak <= s.limit
}

/// A memory budget: reservations are accounted against a fixed limit, and the
/// highest accounted usage is remembered.
pub struct MemoryBudget {
    limit: u64,
    used: u64,
    peak: u64,
    id: Ghost<int>,
}

/// Bytes accounted against a budget until they are released.
pub struct MemoryReservation {
    bytes: u64,
    budget: Ghost<int>,
}

impl MemoryReservation {
    pub closed spec fn size(self) -> nat {
        self.bytes as nat
    }

    /// The identity of the budget that made the reservation.
    pub closed spec fn budget(self) -> int {
        self.budget@
    }

    pub fn bytes(&self) -> (r: u64)
        ensures
            r == self.size(),
    {
        self.bytes
    }
}

impl MemoryBudget {
    #[verifier::type_invariant]
    closed spec fn inv(self) -> bool {
        self.used <= self.peak <= self.limit
    }

    pub closed spec fn state(self) -> BudgetState {
        BudgetState { limit: self.limit as nat, used: self.used as nat, peak: self.peak as nat }
    }

    /// The budget's identity: its reservations carry it, and only they can be
    /// released into it.
    pub closed spec fn id(self) -> int {
        self.id@
    }

    /// A budget of `limit` bytes with nothing reserved.
    pub fn new(limit: u64) -> (b: Self)
        ensures
            b.state() == (BudgetState { limit: limit as nat, used: 0, peak: 0 }),
            budget_wf(b.state()),
    {
        MemoryBudget { limit, used: 0, peak: 0, id: Ghost(0) }
    }

    /// Accounts `bytes` more; refused, with nothing changed, when the total would
    /// pass the limit.
    pub fn reserve(&mut self, bytes: u64) -> (r: Result<MemoryReservation, RuntimeError>)
        ensures
            r is Ok <==> fits(old(self).state(), bytes as nat),
            budget_wf(final(self).state()),
            final(self).id() == old(self).id(),
            r matches Ok(res) ==> res.size() == bytes && res.budget() == old(self).id() && final(self).state() == reserved(
                old(self).state(),
                bytes as nat,
            ),
            r matches Err(e) ==> final(self).state() == old(self).state() && e
                == (RuntimeError::BudgetExceeded {
                requested: bytes,
                used: old(self).state().used as u64,
                limit: old(self).state().limit as u64,
            }),
    {
        proof {
            use_type_invariant(&*self);
        }
        let used = self.used;
        let limit = self.limit;
        let requested = match used.checked_add(bytes) {
            Some(total) => total,
            None => {
                return Err(RuntimeError::BudgetExceeded { requested: bytes, used, limit });
            },
        };
        if requested > limit {
            return Err(RuntimeError::BudgetExceeded { requested: bytes, used, limit });
        }
        let peak = if self.peak >= requested {
            self.peak
        } else {
            requested
        };
        let id = Ghost(self.id@);
        *self = MemoryBudget { limit, used: requested, peak, id };
        Ok(MemoryReservation { bytes, budget: id })
    }

    /// Gives a reservation back; usage drops by its size (never below zero).
    pub fn release(&mut self, reservation: MemoryReservation)
        requires
            reservation.budget() == old(self).id(),
        ensures
            final(self).id() == old(self).id(),
            final(self).state() == released(old(self).state(), reservation.size()),
            budget_wf(final(self).state()),
    {
        proof {
            use_type_invariant(&*self);
        }
        let used = if self.used >= reservation.bytes {
            self.used - reservation.bytes
        } else {
            0
        };
        *self = MemoryBudget { limit: self.limit, used, peak: self.peak, id: Ghost(self.id@) };
    }

    pub fn used(&self) -> (r: u64)
        ensures
            r == self.state().used,
    {
        self.used
    }

    pub fn peak(&self) -> (r: u64)
        ensures
            r == self.state().peak,
    {
        self.peak
    }

    pub fn limit(&self) -> (r: u64)
        ensures
            r == self.state().limit,
    {
        self.limit
    }

}

/// A reservation fits only while usage stays within the limit, and keeps the
/// accounting well formed.
pub proof fn law_reserve_keeps_wf(s: BudgetState, bytes: nat)
    requires
        budget_wf(s),
        fits(s, bytes),
    ensures
        budget_wf(reserved(s, bytes)),
        reserved(s, bytes).used <= s.limit,
        reserved(s, bytes).peak >= s.peak,
{
}

/// Releasing a reservation gives back exactly what reserving it took: usage and
/// limit return to where they were, and the peak remembers the reservation.
pub proof fn law_reserve_release_roundtrip(s: BudgetState, bytes: nat)
    requires
        budget_wf(s),
        fits(s, bytes),
    ensures
        released(reserved(s, bytes), bytes).used == s.used,
        released(reserved(s, bytes), bytes).limit == s.limit,
        released(reserved(s, bytes), bytes).peak >= s.used + bytes,
        budget_wf(released(reserved(s, bytes), bytes)),
{
}

/// A value whose memory stays accounted until the value is taken out.
pub struct Budgeted<T> {
    value: T,
    reservation: MemoryReservation,
}

impl<T> Budgeted<T> {
    pub closed spec fn value(self) -> T {
        self.value
    }

    pub closed spec fn size(self) -> nat {
        self.reservation.size()
    }

    /// The identity of the budget the value is accounted against.
    pub closed spec fn budget(self) -> int {
        self.reservation.budget()
    }

    pub fn new(value: T, reservation: MemoryReservation) -> (b: Self)
        ensures
            b.value() == value,
            b.size() == reservation.size(),
            b.budget() == reservation.budget(),
    {
        Budgeted { value, reservation }
    }

    /// Takes the value out and releases its reservation.
    pub fn into_inner(self, budget: &mut MemoryBudget) -> (v: T)
        requires
            self.budget() == old(budget).id(),
        ensures
            final(budget).id() == old(budget).id(),
            v == self.value(),
            final(budget).state() == released(old(budget).state(), self.size()),
    {
        let Budgeted { value, reservation } = self;
        budget.release(reservation);
        value
    }
}

// ---------------------------------------------------------------------------
// SHA-256
// ---------------------------------------------------------------------------

/// A running SHA-256 computation (a `sha2::Sha256` hasher).
#[verifier::external_body]
pub struct Sha256State {
    hasher: sha2::Sha256,
}

/// The bytes fed to a SHA-256 hasher so far.
pub uninterp spec fn sha256_input(h: Sha256State) -> Seq<u8>;

/// The SHA-256 digest of a byte sequence.
pub uninterp spec fn sha256(data: Seq<u8>) -> Seq<u8>;

/// `sha2::Digest::new`: a hasher that has been fed nothing.
#[verifier::external_body]
pub(crate) fn sha256_new() -> (h: Sha256State)
    ensures
        sha256_input(h) == Seq::<u8>::empty(),
{
    Sha256State { hasher: <sha2::Sha256 as sha2::Digest>::new() }
}

/// `sha2::Digest::update`: feeds `data` after what the hasher already holds.
#[verifier::external_body]
pub(crate) fn sha256_update(h: &mut Sha256State, data: &[u8])
    ensures
        sha256_input(*final(h)) == sha256_input(*old(h)) + data@,
{
    sha2::Digest::update(&mut h.hasher, data)
}

/// `sha2::Digest::finalize`: the 32-byte digest of everything fed.
#[verifier::external_body]
pub(crate) fn sha256_finalize(h: Sha256State) -> (d: Vec<u8>)
    ensures
        d@ == sha256(sha256_input(h)),
        d@.len() == 32,
{
    sha2::Digest::finalize(h.hasher).to_vec()
}

/// The SHA-256 digest of `data`.
pub fn sha256_of(data: &[u8]) -> (d: Vec<u8>)
    ensures
        d@ == sha256(data@),
        d@.len() == 32,
{
    let mut h = sha256_new();
    sha256_update(&mut h, data);
    assert(Seq::<u8>::empty() + data@ =~= data@);
    sha256_finalize(h)
}

/// Lower-case hexadecimal rendering of a digest.
pub fn digest_hex(digest: &[u8]) -> (r: String)
    ensures
        r@ == hex(digest@),
{
    hex_string(digest)
}

// ---------------------------------------------------------------------------
// JSONL spool
// ---------------------------------------------------------------------------

/// What a finished spool reports: how many events and bytes passed through it
/// and the SHA-256 of all of them.
#[derive(Debug)]
pub struct SpoolSummaryV1 {
    pub schema_version: String,
    pub event_count: u64,
    pub bytes: u64,
    pub sha256: String,
}

/// A spool of JSON lines. The caller writes each line the spool prepares and then
/// records it; the spool retains only counts and the running hash.
pub struct JsonlSpool {
    hasher: Sha256State,
    event_count: u64,
    bytes: u64,
    max_event_bytes: usize,
}

impl JsonlSpool {
    /// The byte count agrees with what the hash has been fed.
    pub closed spec fn wf(self) -> bool {
        self.bytes as nat == sha256_input(self.hasher).len()
    }

    /// Every byte recorded so far, in order.
    pub closed spec fn recorded(self) -> Seq<u8> {
        sha256_input(self.hasher)
    }

    pub closed spec fn events(self) -> nat {
        self.event_count as nat
    }

    pub closed spec fn max_event(self) -> nat {
        self.max_event_bytes as nat
    }

    /// An empty spool whose lines may hold at most `max_event_bytes` bytes.
    pub fn new(max_event_bytes: usize) -> (s: Self)
        ensures
            s.wf(),
            s.recorded() == Seq::<u8>::empty(),
            s.events() == 0,
            s.max_event() == max_event_bytes,
    {
        JsonlSpool { hasher: sha256_new(), event_count: 0, bytes: 0, max_event_bytes }
    }

    /// The line for one encoded event: the event followed by a newline, refused
    /// when it is longer than the event limit.
    pub fn prepare(&self, event: &[u8]) -> (r: Result<Vec<u8>, RuntimeError>)
        ensures
            r is Ok <==> event@.len() + 1 <= self.max_event(),
            r matches Ok(line) ==> line@ == event@.push(10u8),
            r matches Err(e) ==> e == (RuntimeError::EventTooLarge {
                actual: (event@.len() + 1) as usize,
                limit: self.max_event() as usize,
            }),
    {
        let mut line: Vec<u8> = Vec::new();
        let mut i: usize = 0;
        while i < event.len()
            invariant
                i <= event@.len(),
                line@ == event@.subrange(0, i as int),
            decreases event@.len() - i,
        {
            line.push(event[i]);
            i = i + 1;
            assert(line@ =~= event@.subrange(0, i as int));
        }
        assert(event@.subrange(0, event@.len() as int) =~= event@);
        line.push(10u8);
        if line.len() > self.max_event_bytes {
            return Err(RuntimeError::EventTooLarge {
                actual: line.len(),
                limit: self.max_event_bytes,
            });
        }
        Ok(line)
    }

    /// Records a line that has been written: it joins the hash and the counts.
    pub fn record(&mut self, line: &[u8]) -> (r: Result<(), RuntimeError>)
        requires
            old(self).wf(),
        ensures
            final(self).wf(),
            r is Ok <==> old(self).events() < u64::MAX && old(self).recorded().len()
                + line@.len() <= u64::MAX,
            r is Ok ==> final(self).recorded() == old(self).recorded() + line@,
            r is Ok ==> final(self).events() == old(self).events() + 1,
            r is Err ==> final(self).recorded() == old(self).recorded(),
            r is Err ==> final(self).events() == old(self).events(),
            r matches Err(e) ==> e is SizeOverflow,
            final(self).max_event() == old(self).max_event(),
    {
        if self.event_count == u64::MAX {
            return Err(RuntimeError::SizeOverflow);
        }
        let len = line.len() as u64;
        if self.bytes > u64::MAX - len {
            return Err(RuntimeError::SizeOverflow);
        }
        sha256_update(&mut self.hasher, line);
        self.bytes = self.bytes + len;
        self.event_count = self.event_count + 1;
        Ok(())
    }

    /// The summary of everything recorded.
    pub fn finish(self) -> (s: SpoolSummaryV1)
        requires
            self.wf(),
        ensures
            s.schema_version@ == lit(SPOOL_SUMMARY_SCHEMA_V1),
            s.event_count == self.events(),
            s.bytes == self.recorded().len(),
            s.sha256@ == hex(sha256(self.recorded())),
    {
        let JsonlSpool { hasher, event_count, bytes, max_event_bytes: _ } = self;
        let digest = sha256_finalize(hasher);
        SpoolSummaryV1 {
            schema_version: owned(SPOOL_SUMMARY_SCHEMA_V1),
            event_count,
            bytes,
            sha256: digest_hex(digest.as_slice()),
        }
    }
}

/// Two spools that record the same lines report the same summary.
pub proof fn law_spool_hash_repeatable(a: Seq<u8>, b: Seq<u8>)
    requires
        a == b,
    ensures
        hex(sha256(a)) == hex(sha256(b)),
{
}

} // verus!
