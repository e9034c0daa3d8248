use crate::clock::unix_nanos;
use vstd::prelude::*;

verus! {

pub const NODE_ID_BITS: u64 = 10;

pub const SEQUENCE_BITS: u64 = 12;

pub const NODE_ID_SHIFT: u64 = 12;

pub const TIMESTAMP_SHIFT: u64 = 22;

pub const SEQUENCE_MASK: i64 = 4095;

/// Start of the identifier epoch, in clock ticks.
pub const TWEPOCH: i64 = 1288834974288;

pub type Guid = i64;

#[derive(Debug, Clone, Copy, PartialEq, Eq, Structural)]
pub enum GuidError {
    TimeBackwards,
    SequenceExpired,
    IDBackwards,
}

/// Issues identifiers made of a clock tick, a node number and a per-tick sequence.
pub struct GuidFactory {
    node_id: i64,
    sequence: i64,
    last_timestamp: i64,
    last_id: Guid,
}

/// The clock tick (nanoseconds divided by 2^20) that a reading falls in.
pub open spec fn tick_of(nanos: u128) -> i64 {
    (nanos as i64) >> 20
}

/// The identifier bit layout: tick since `TWEPOCH`, then node, then sequence.
pub open spec fn compose(tick: i64, node_id: i64, sequence: i64) -> Guid {
    (((tick - TWEPOCH) as i64) << 22) | (node_id << 12) | sequence
}

/// The sequence number that follows `sequence` within one tick; it wraps to zero.
pub open spec fn next_sequence(sequence: i64) -> i64 {
    if sequence == SEQUENCE_MASK {
        0
    } else {
        (sequence + 1) as i64
    }
}

/// What a factory remembers.
pub struct GuidView {
    pub node_id: i64,
    /// The sequence number of the last identifier within its tick.
    pub sequence: i64,
    /// The tick of the last clock reading that was taken.
    pub last_timestamp: i64,
    /// The last identifier issued.
    pub last_id: Guid,
}

impl GuidView {
    /// The sequence counter stays within its twelve bits.
    pub open spec fn wf(self) -> bool {
        0 <= self.sequence <= SEQUENCE_MASK
    }

    /// What asking for an identifier at a clock reading of `nanos` nanoseconds
    /// comes to. A reading in an earlier tick than the last one is refused. Within
    /// one tick the sequence advances, and the request fails once it has wrapped.
    /// An identifier that would not exceed the last one issued is refused as well.
    pub open spec fn issue(self, nanos: u128) -> (GuidView, Result<Guid, GuidError>) {
        let tick = tick_of(nanos);
        if tick < self.last_timestamp {
            (self, Err(GuidError::TimeBackwards))
        } else {
            let same = tick == self.last_timestamp;
            let sequence = if same {
                next_sequence(self.sequence)
            } else {
                0
            };
            let id = compose(tick, self.node_id, sequence);
            if same && sequence == 0 {
                (GuidView { sequence, ..self }, Err(GuidError::SequenceExpired))
            } else if id <= self.last_id {
                (GuidView { sequence, last_timestamp: tick, ..self }, Err(GuidError::IDBackwards))
            } else {
                (GuidView { sequence, last_timestamp: tick, last_id: id, ..self }, Ok(id))
            }
        }
    }

    /// What asking for an identifier comes to when the clock was read as `reading`.
    /// A clock that reads earlier than the epoch gives no reading: that counts as
    /// time gone backwards, and changes nothing. Any other reading is taken as
    /// `issue` has it.
    pub open spec fn issue_for(self, reading: Option<u128>) -> (GuidView, Result<Guid, GuidError>) {
        match reading {
            Some(nanos) => self.issue(nanos),
            None => (self, Err(GuidError::TimeBackwards)),
        }
    }
}

/// Whether a factory that was `before` is `after`, and has answered `r`, as asking
/// it for an identifier at the clock reading `reading` comes to.
pub open spec fn issued(
    before: GuidView,
    after: GuidView,
    r: Result<Guid, GuidError>,
    reading: Option<u128>,
) -> bool {
    &&& after == before.issue_for(reading).0
    &&& r == before.issue_for(reading).1
}

impl View for GuidFactory {
    type V = GuidView;

    closed spec fn view(&self) -> GuidView {
        GuidView {
            node_id: self.node_id,
            sequence: self.sequence,
            last_timestamp: self.last_timestamp,
            last_id: self.last_id,
        }
    }
}

impl GuidFactory {
    /// The sequence counter stays within its twelve bits.
    pub open spec fn wf(&self) -> bool {
        self@.wf()
    }

    pub fn new(node_id: i64) -> (f: Self)
        ensures
            f.wf(),
            f@ == (GuidView { node_id, sequence: 0, last_timestamp: 0, last_id: 0 }),
    {
        Self { node_id, sequence: 0, last_timestamp: 0, last_id: 0 }
    }

    /// Issues the next identifier for a clock reading of `nanos` nanoseconds.
    pub fn next_guid_at(&mut self, nanos: u128) -> (r: Result<Guid, GuidError>)
        requires
            old(self).wf(),
        ensures
            final(self).wf(),
            final(self)@ == old(self)@.issue(nanos).0,
            r == old(self)@.issue(nanos).1,
    {
        let ts: i64 = (#[verifier::truncate] (nanos as i64)) >> 20;
        assert(-0x800_0000_0000 <= ((nanos as i64) >> 20) < 0x800_0000_0000) by (bit_vector);
        if ts < self.last_timestamp {
            return Err(GuidError::TimeBackwards);
        }
        if self.last_timestamp == ts {
            let seq = self.sequence;
            assert((((seq + 1) as i64) & 4095) == next_sequence(seq)) by (bit_vector)
                requires
                    0 <= seq <= 4095,
            ;
            self.sequence = (self.sequence + 1) & SEQUENCE_MASK;
            if self.sequence == 0 {
                return Err(GuidError::SequenceExpired);
            }
        } else {
            self.sequence = 0;
        }
        self.last_timestamp = ts;
        let id: i64 = ((ts - TWEPOCH) << TIMESTAMP_SHIFT) | (self.node_id << NODE_ID_SHIFT)
            | self.sequence;
        if id <= self.last_id {
            return Err(GuidError::IDBackwards);
        }
        self.last_id = id;
        Ok(id)
    }

    /// Issues the next identifier for the clock reading `reading`, which is nothing
    /// where the clock reads earlier than the epoch.
    pub fn next_guid_for(&mut self, reading: Option<u128>) -> (r: Result<Guid, GuidError>)
        requires
            old(self).wf(),
        ensures
            final(self).wf(),
            issued(old(self)@, final(self)@, r, reading),
    {
        match reading {
            Some(nanos) => self.next_guid_at(nanos),
            None => Err(GuidError::TimeBackwards),
        }
    }

    /// Issues the next identifier for the current reading of the system clock.
    ///
    /// What the clock reads is not known beforehand; whatever it reads, the factory
    /// takes the reading as `issue_for` has it: the sequence, the tick and the last
    /// identifier that it remembers change as they do there, and the answer is the
    /// one given there. So an identifier that is handed out exceeds every one
    /// handed out before, and a refusal leaves the last identifier as it was.
    pub fn new_guid(&mut self) -> (r: Result<Guid, GuidError>)
        requires
            old(self).wf(),
        ensures
            final(self).wf(),
            exists|reading: Option<u128>| #[trigger] issued(old(self)@, final(self)@, r, reading),
            final(self)@.node_id == old(self)@.node_id,
            r matches Ok(id) ==> id > old(self)@.last_id && final(self)@.last_id == id,
            r is Err ==> final(self)@.last_id == old(self)@.last_id,
    {
        self.next_guid_for(unix_nanos())
    }
}

/// Identifiers grow: one that is issued exceeds the last one issued before, and a
/// refusal leaves the last one as it was. So no identifier is issued twice.
pub proof fn law_guid_grows(g: GuidView, nanos: u128)
    ensures
        g.issue(nanos).1 matches Ok(id) ==> id > g.last_id && g.issue(nanos).0.last_id == id,
        g.issue(nanos).1 is Err ==> g.issue(nanos).0.last_id == g.last_id,
        g.issue(nanos).0.node_id == g.node_id,
        g.wf() ==> g.issue(nanos).0.wf(),
{
}

/// For a tick at or after `TWEPOCH` that fits in 41 bits, a node number of ten bits
/// and a sequence of twelve, the three parts of an identifier do not overlap: the
/// identifier is their weighted sum.
pub proof fn law_compose_is_sum(tick: i64, node_id: i64, sequence: i64)
    requires
        0 <= tick - TWEPOCH < 0x200_0000_0000,
        0 <= node_id < 1024,
        0 <= sequence < 4096,
    ensures
        compose(tick, node_id, sequence) == (tick - TWEPOCH) * 0x40_0000 + node_id * 0x1000
            + sequence,
{
    let d: i64 = (tick - TWEPOCH) as i64;
    assert((d << 22) | (node_id << 12) | sequence == d * 0x40_0000 + node_id * 0x1000 + sequence)
        by (bit_vector)
        requires
            0 <= d < 0x200_0000_0000,
            0 <= node_id < 1024,
            0 <= sequence < 4096,
    ;
}

} // verus!

verus! {

#[verifier::external_type_specification]
#[verifier::external_body]
pub struct ExFromHexError(hex::FromHexError);

/// The lower-case hexadecimal digit for a value below sixteen.
pub open spec fn hex_digit(n: u8) -> u8 {
    if n < 10 {
        (48 + n) as u8
    } else {
        (87 + n) as u8
    }
}

/// The lower-case hexadecimal text of `s`: two digits a byte, high half first.
pub open spec fn hex_lower(s: Seq<u8>) -> Seq<u8> {
    Seq::new(
        2 * s.len(),
        |i: int|
            if i % 2 == 0 {
                hex_digit(s[i / 2] >> 4)
            } else {
                hex_digit(s[i / 2] & 0x0f)
            },
    )
}

/// Calls `hex::encode_to_slice`, which writes the lower-case hexadecimal digits of
/// `input` into `output`, the high half of each byte before the low half. When
/// the sixteen bytes of `output` are not exactly twice as many as those of `input`
/// it fails and writes nothing.
#[verifier::external_body]
fn hex_encode_to_slice(input: &[u8], output: &mut [u8; 16]) -> (r: Result<
    (),
    hex::FromHexError,
>)
    requires
        input@.len() * 2 <= usize::MAX,
    ensures
        r is Ok <==> input@.len() * 2 == 16,
        r is Ok ==> final(output)@ == hex_lower(input@),
        r is Err ==> final(output)@ == old(output)@,
{
    hex::encode_to_slice(input, &mut output[..])
}

/// Renders an identifier as the sixteen hexadecimal digits of its big-endian bytes.
pub fn guid_to_hex(guid: Guid) -> (id: [u8; 16])
    ensures
        id@ == hex_lower(crate::endian::u64_be(guid as u64)),
{
    let bytes = crate::endian::u64_to_be(guid as u64);
    let mut message_id = [0u8; 16];
    let _ = hex_encode_to_slice(bytes.as_slice(), &mut message_id);
    message_id
}

} // verus!
