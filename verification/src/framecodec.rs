//! A codec for a small framed protocol.
//!
//! A frame on the wire is a fixed header followed by the payload bytes. Every route that
//! builds a header rejects what the doc comment on [`Header`] forbids: the byte route
//! ([`Header::decode`]) and the conversions from the fields as an input wrote them
//! ([`RawHeader`], [`RawFrame`]) share one check per type.
use vstd::prelude::*;

verus! {

/// The one protocol version this crate reads.
pub const VERSION: u8 = 1;

/// A frame priority from `0` (lowest) to `Priority::MAX`.
#[derive(Copy, Clone, PartialEq, Eq, PartialOrd, Ord, Hash, Debug, Structural)]
pub struct Priority(u8);

/// A priority above `Priority::MAX` was given.
#[derive(Debug, Copy, Clone, PartialEq, Eq, Structural)]
pub struct PriorityTooHigh(pub u8);

impl View for Priority {
    type V = u8;

    closed spec fn view(&self) -> u8 {
        self.0
    }
}

impl Priority {
    /// The highest priority.
    pub const MAX: u8 = 3;

    #[verifier::type_invariant]
    closed spec fn in_range(self) -> bool {
        self.0 <= Self::MAX
    }

    /// The priority of level `level`; meaningful for `level <= Priority::MAX`.
    pub closed spec fn from_level(level: u8) -> Priority {
        Priority(level)
    }

    /// A priority is its level.
    pub proof fn lemma_from_level(level: u8)
        ensures
            Self::from_level(level)@ == level,
            forall|p: Priority| p@ == level ==> p == Self::from_level(level),
    {
    }

    /// Returns the priority, or `None` above `Priority::MAX`.
    pub fn new(level: u8) -> (r: Option<Self>)
        ensures
            r == if level <= Self::MAX {
                Some(Self::from_level(level))
            } else {
                None
            },
    {
        if level <= Self::MAX {
            Some(Priority(level))
        } else {
            None
        }
    }

    /// The priority as a number.
    pub fn get(self) -> (r: u8)
        ensures
            r == self@,
            r <= Self::MAX,
    {
        proof {
            use_type_invariant(&self);
        }
        self.0
    }
}

impl TryFrom<u8> for Priority {
    type Error = PriorityTooHigh;

    fn try_from(level: u8) -> (r: Result<Self, PriorityTooHigh>) {
        match Self::new(level) {
            Some(p) => Ok(p),
            None => Err(PriorityTooHigh(level)),
        }
    }
}

impl vstd::std_specs::convert::TryFromSpecImpl<u8> for Priority {
    open spec fn obeys_try_from_spec() -> bool {
        true
    }

    open spec fn try_from_spec(level: u8) -> Result<Self, PriorityTooHigh> {
        if level <= Self::MAX {
            Ok(Self::from_level(level))
        } else {
            Err(PriorityTooHigh(level))
        }
    }
}

impl From<Priority> for u8 {
    fn from(priority: Priority) -> (r: u8) {
        priority.get()
    }
}

impl vstd::std_specs::convert::FromSpecImpl<Priority> for u8 {
    open spec fn obeys_from_spec() -> bool {
        true
    }

    open spec fn from_spec(priority: Priority) -> u8 {
        priority@
    }
}

/// A payload length from `0` to `PayloadLen::MAX` bytes.
#[derive(Copy, Clone, PartialEq, Eq, PartialOrd, Ord, Hash, Debug, Structural)]
pub struct PayloadLen(u16);

/// A payload length above `PayloadLen::MAX` was given.
#[derive(Debug, Copy, Clone, PartialEq, Eq, Structural)]
pub struct PayloadTooLong(pub u16);

impl View for PayloadLen {
    type V = u16;

    closed spec fn view(&self) -> u16 {
        self.0
    }
}

impl PayloadLen {
    /// The largest payload a frame carries.
    pub const MAX: u16 = 4096;

    #[verifier::type_invariant]
    closed spec fn in_range(self) -> bool {
        self.0 <= Self::MAX
    }

    /// The length `len`; meaningful for `len <= PayloadLen::MAX`.
    pub closed spec fn from_len(len: u16) -> PayloadLen {
        PayloadLen(len)
    }

    /// A payload length is its number.
    pub proof fn lemma_from_len(len: u16)
        ensures
            Self::from_len(len)@ == len,
            forall|p: PayloadLen| p@ == len ==> p == Self::from_len(len),
    {
    }

    /// Returns the length, or `None` above `PayloadLen::MAX`.
    pub fn new(len: u16) -> (r: Option<Self>)
        ensures
            r == if len <= Self::MAX {
                Some(Self::from_len(len))
            } else {
                None
            },
    {
        if len <= Self::MAX {
            Some(PayloadLen(len))
        } else {
            None
        }
    }

    /// The length as a number.
    pub fn get(self) -> (r: u16)
        ensures
            r == self@,
            r <= Self::MAX,
    {
        proof {
            use_type_invariant(&self);
        }
        self.0
    }
}

impl TryFrom<u16> for PayloadLen {
    type Error = PayloadTooLong;

    fn try_from(len: u16) -> (r: Result<Self, PayloadTooLong>) {
        match Self::new(len) {
            Some(p) => Ok(p),
            None => Err(PayloadTooLong(len)),
        }
    }
}

impl vstd::std_specs::convert::TryFromSpecImpl<u16> for PayloadLen {
    open spec fn obeys_try_from_spec() -> bool {
        true
    }

    open spec fn try_from_spec(len: u16) -> Result<Self, PayloadTooLong> {
        if len <= Self::MAX {
            Ok(Self::from_len(len))
        } else {
            Err(PayloadTooLong(len))
        }
    }
}

impl From<PayloadLen> for u16 {
    fn from(len: PayloadLen) -> (r: u16) {
        len.get()
    }
}

impl vstd::std_specs::convert::FromSpecImpl<PayloadLen> for u16 {
    open spec fn obeys_from_spec() -> bool {
        true
    }

    open spec fn from_spec(len: PayloadLen) -> u16 {
        len@
    }
}

/// A signed, nonzero adjustment a frame applies to the receiver's window.
#[derive(Copy, Clone, PartialEq, Eq, PartialOrd, Ord, Hash, Debug, Structural)]
pub struct Delta(i32);

/// A zero delta was given.
#[derive(Debug, Copy, Clone, PartialEq, Eq, Structural)]
pub struct ZeroDelta;

impl View for Delta {
    type V = i32;

    closed spec fn view(&self) -> i32 {
        self.0
    }
}

impl Delta {
    #[verifier::type_invariant]
    closed spec fn nonzero(self) -> bool {
        self.0 != 0
    }

    /// The delta `value`; meaningful for a nonzero `value`.
    pub closed spec fn from_value(value: i32) -> Delta {
        Delta(value)
    }

    /// A delta is its value.
    pub proof fn lemma_from_value(value: i32)
        ensures
            Self::from_value(value)@ == value,
            forall|d: Delta| d@ == value ==> d == Self::from_value(value),
    {
    }

    /// Returns the delta, or `None` for zero.
    pub fn new(value: i32) -> (r: Option<Self>)
        ensures
            r == if value != 0 {
                Some(Self::from_value(value))
            } else {
                None
            },
    {
        if value == 0 {
            None
        } else {
            Some(Delta(value))
        }
    }

    /// The delta as a number.
    pub fn get(self) -> (r: i32)
        ensures
            r == self@,
            r != 0,
    {
        proof {
            use_type_invariant(&self);
        }
        self.0
    }

    /// The unsigned distance. Nonzero, and `i32::MIN` fits: its magnitude is `2^31`.
    pub fn magnitude(self) -> (r: u32)
        ensures
            r == if self@ < 0 {
                -self@
            } else {
                self@ as int
            },
            r != 0,
    {
        proof {
            use_type_invariant(&self);
        }
        if self.0 < 0 {
            (-(self.0 as i64)) as u32
        } else {
            self.0 as u32
        }
    }

    /// The opposite delta, or `None` for `i32::MIN`, whose opposite does not fit in an `i32`.
    pub fn checked_invert(self) -> (r: Option<Self>)
        ensures
            r == if self@ == i32::MIN {
                None
            } else {
                Some(Self::from_value((-self@) as i32))
            },
    {
        proof {
            use_type_invariant(&self);
        }
        if self.0 == i32::MIN {
            None
        } else {
            // The opposite of a nonzero value is nonzero.
            Some(Delta(-self.0))
        }
    }
}

impl TryFrom<i32> for Delta {
    type Error = ZeroDelta;

    fn try_from(value: i32) -> (r: Result<Self, ZeroDelta>) {
        match Self::new(value) {
            Some(d) => Ok(d),
            None => Err(ZeroDelta),
        }
    }
}

impl vstd::std_specs::convert::TryFromSpecImpl<i32> for Delta {
    open spec fn obeys_try_from_spec() -> bool {
        true
    }

    open spec fn try_from_spec(value: i32) -> Result<Self, ZeroDelta> {
        if value != 0 {
            Ok(Self::from_value(value))
        } else {
            Err(ZeroDelta)
        }
    }
}

impl From<Delta> for i32 {
    fn from(delta: Delta) -> (r: i32) {
        delta.get()
    }
}

impl vstd::std_specs::convert::FromSpecImpl<Delta> for i32 {
    open spec fn obeys_from_spec() -> bool {
        true
    }

    open spec fn from_spec(delta: Delta) -> i32 {
        delta@
    }
}

/// A decoded frame header. Whichever route builds one, a header never carries an unsupported
/// version, a priority above `Priority::MAX`, or a payload length above `PayloadLen::MAX`.
#[derive(Copy, Clone, PartialEq, Eq, Debug, Structural)]
pub struct Header {
    /// The protocol version. Always `VERSION`.
    pub version: u8,
    /// The frame priority.
    pub priority: Priority,
    /// The payload length that follows the header.
    pub payload_len: PayloadLen,
}

/// The header fields as an input wrote them. The meaning is checked by `Header::try_from`.
#[derive(Copy, Clone, Debug)]
pub struct RawHeader {
    /// The version the input named.
    pub version: u8,
    /// The priority the input named.
    pub priority: Priority,
    /// The payload length the input named.
    pub payload_len: PayloadLen,
}

/// A frame: a header and the payload bytes it announces.
#[derive(Clone, PartialEq, Eq, Debug)]
pub struct Frame {
    /// The header.
    pub header: Header,
    /// The payload. Its length is `header.payload_len`.
    pub payload: Vec<u8>,
}

/// A frame as an input wrote it. The length match is checked by `Frame::try_from`.
#[derive(Clone, Debug)]
pub struct RawFrame {
    /// The header.
    pub header: Header,
    /// The payload.
    pub payload: Vec<u8>,
}

/// Why bytes did not decode as a header.
#[derive(Debug, Copy, Clone, PartialEq, Eq, Structural)]
pub enum DecodeError {
    /// Fewer than `Header::SIZE` bytes were given.
    Truncated { expected: usize, actual: usize },
    /// The version byte is not `VERSION`.
    UnsupportedVersion(u8),
    /// The priority byte is above `Priority::MAX`.
    PriorityTooHigh(PriorityTooHigh),
    /// The length field is above `PayloadLen::MAX`.
    PayloadTooLong(PayloadTooLong),
}

impl From<PriorityTooHigh> for DecodeError {
    fn from(e: PriorityTooHigh) -> (r: DecodeError) {
        DecodeError::PriorityTooHigh(e)
    }
}

impl vstd::std_specs::convert::FromSpecImpl<PriorityTooHigh> for DecodeError {
    open spec fn obeys_from_spec() -> bool {
        true
    }

    open spec fn from_spec(e: PriorityTooHigh) -> DecodeError {
        DecodeError::PriorityTooHigh(e)
    }
}

impl From<PayloadTooLong> for DecodeError {
    fn from(e: PayloadTooLong) -> (r: DecodeError) {
        DecodeError::PayloadTooLong(e)
    }
}

impl vstd::std_specs::convert::FromSpecImpl<PayloadTooLong> for DecodeError {
    open spec fn obeys_from_spec() -> bool {
        true
    }

    open spec fn from_spec(e: PayloadTooLong) -> DecodeError {
        DecodeError::PayloadTooLong(e)
    }
}

/// Why a frame's header and payload do not go together.
#[derive(Debug, Copy, Clone, PartialEq, Eq, Structural)]
pub struct PayloadMismatch {
    /// The header's `payload_len`.
    pub announced: u16,
    /// The payload's length.
    pub actual: usize,
}

/// The big-endian number of two bytes.
pub open spec fn be_u16(hi: u8, lo: u8) -> u16 {
    (hi * 256 + lo) as u16
}

/// The header that `bytes` decode to, or why they do not: too short, then a priority above
/// the maximum, then a length above the maximum, then an unsupported version.
pub open spec fn decode_spec(bytes: Seq<u8>) -> Result<Header, DecodeError> {
    if bytes.len() < Header::SIZE {
        Err(DecodeError::Truncated { expected: Header::SIZE, actual: bytes.len() as usize })
    } else if bytes[1] > Priority::MAX {
        Err(DecodeError::PriorityTooHigh(PriorityTooHigh(bytes[1])))
    } else if be_u16(bytes[2], bytes[3]) > PayloadLen::MAX {
        Err(DecodeError::PayloadTooLong(PayloadTooLong(be_u16(bytes[2], bytes[3]))))
    } else if bytes[0] != VERSION {
        Err(DecodeError::UnsupportedVersion(bytes[0]))
    } else {
        Ok(
            Header {
                version: bytes[0],
                priority: Priority::from_level(bytes[1]),
                payload_len: PayloadLen::from_len(be_u16(bytes[2], bytes[3])),
            },
        )
    }
}

/// The encoded header: the version, the priority, then the length in big-endian.
pub open spec fn encode_spec(h: Header) -> Seq<u8> {
    seq![h.version, h.priority@, (h.payload_len@ / 256) as u8, (h.payload_len@ % 256) as u8]
}

impl Header {
    /// The encoded size: the version, the priority, then the length in big-endian.
    pub const SIZE: usize = 4;

    /// Decodes a header from the first `Header::SIZE` bytes of `bytes`.
    pub fn decode(bytes: &[u8]) -> (r: Result<Self, DecodeError>)
        ensures
            r == decode_spec(bytes@),
    {
        if bytes.len() < Self::SIZE {
            return Err(DecodeError::Truncated { expected: Self::SIZE, actual: bytes.len() });
        }
        let version = bytes[0];
        let priority = match Priority::try_from(bytes[1]) {
            Ok(p) => p,
            Err(e) => {
                return Err(DecodeError::from(e));
            },
        };
        let len = (bytes[2] as u16) * 256 + bytes[3] as u16;
        let payload_len = match PayloadLen::try_from(len) {
            Ok(l) => l,
            Err(e) => {
                return Err(DecodeError::from(e));
            },
        };
        Self::try_from(RawHeader { version, priority, payload_len })
    }

    /// Encodes the header. `decode(&encode())` returns the same header.
    pub fn encode(self) -> (r: [u8; 4])
        ensures
            r@ == encode_spec(self),
    {
        let len = self.payload_len.get();
        [self.version, self.priority.get(), (len / 256) as u8, (len % 256) as u8]
    }
}

impl TryFrom<RawHeader> for Header {
    type Error = DecodeError;

    fn try_from(raw: RawHeader) -> (r: Result<Self, DecodeError>) {
        if raw.version != VERSION {
            return Err(DecodeError::UnsupportedVersion(raw.version));
        }
        Ok(Header { version: raw.version, priority: raw.priority, payload_len: raw.payload_len })
    }
}

impl vstd::std_specs::convert::TryFromSpecImpl<RawHeader> for Header {
    open spec fn obeys_try_from_spec() -> bool {
        true
    }

    open spec fn try_from_spec(raw: RawHeader) -> Result<Self, DecodeError> {
        if raw.version != VERSION {
            Err(DecodeError::UnsupportedVersion(raw.version))
        } else {
            Ok(Header { version: raw.version, priority: raw.priority, payload_len: raw.payload_len })
        }
    }
}

impl TryFrom<RawFrame> for Frame {
    type Error = PayloadMismatch;

    fn try_from(raw: RawFrame) -> (r: Result<Self, PayloadMismatch>) {
        let announced = raw.header.payload_len.get();
        if announced as usize != raw.payload.len() {
            return Err(PayloadMismatch { announced, actual: raw.payload.len() });
        }
        Ok(Frame { header: raw.header, payload: raw.payload })
    }
}

impl vstd::std_specs::convert::TryFromSpecImpl<RawFrame> for Frame {
    open spec fn obeys_try_from_spec() -> bool {
        true
    }

    open spec fn try_from_spec(raw: RawFrame) -> Result<Self, PayloadMismatch> {
        if raw.header.payload_len@ != raw.payload@.len() {
            Err(
                PayloadMismatch {
                    announced: raw.header.payload_len@,
                    actual: raw.payload@.len() as usize,
                },
            )
        } else {
            Ok(Frame { header: raw.header, payload: raw.payload })
        }
    }
}

/// Encoding then decoding gives the header back, for every header that keeps the doc
/// comment's promise: the supported version, a priority and a length within their ranges.
pub proof fn law_decode_inverts_encode(h: Header)
    requires
        h.version == VERSION,
        h.priority@ <= Priority::MAX,
        h.payload_len@ <= PayloadLen::MAX,
    ensures
        decode_spec(encode_spec(h)) == Ok::<Header, DecodeError>(h),
{
    let b = encode_spec(h);
    assert(be_u16(b[2], b[3]) == h.payload_len@);
}

/// Decoding then encoding gives back the header bytes that were read.
pub proof fn law_encode_inverts_decode(bytes: Seq<u8>)
    requires
        decode_spec(bytes) is Ok,
    ensures
        encode_spec(decode_spec(bytes)->Ok_0) == bytes.take(Header::SIZE as int),
{
    let h = decode_spec(bytes)->Ok_0;
    assert(encode_spec(h) =~= bytes.take(Header::SIZE as int));
}

/// The byte route keeps the promise of [`Header`]: bytes decode exactly when there are enough
/// of them and each field is in its range, and the header they give holds those fields.
pub proof fn law_decoded_headers_are_valid(bytes: Seq<u8>)
    ensures
        decode_spec(bytes) is Ok <==> bytes.len() >= Header::SIZE && bytes[0] == VERSION
            && bytes[1] <= Priority::MAX && be_u16(bytes[2], bytes[3]) <= PayloadLen::MAX,
        decode_spec(bytes) matches Ok(h) ==> {
            &&& h.version == VERSION
            &&& h.priority@ == bytes[1] && h.priority@ <= Priority::MAX
            &&& h.payload_len@ == be_u16(bytes[2], bytes[3]) && h.payload_len@ <= PayloadLen::MAX
        },
{
}

} // verus!
