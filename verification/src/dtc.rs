//! Pure, read-only decoding of standardized OBD-II Mode 03 responses.
//!
//! Transport framing, retries, job execution and interpretation of a DTC
//! are outside this module. A responder value is retained as opaque adapter
//! metadata; it is never promoted to a CAN or ECU identity.

use vstd::prelude::*;
use vstd::relations::*;

use crate::order::{
    lemma_map_values_multiset, lemma_sort_by_permutation,
    char_codes, int_values, ints_le, ints_le_exec, lemma_char_codes_injective, lemma_ints_le_antisymmetric,
    lemma_ints_le_total_ordering, lemma_mapped_total_ordering, lemma_pair_le_total_ordering,
    model_leq, models, pair_le, sort_by_model, Ordered,
};
use crate::text::{
    char_code, chars_of, is_control, is_control_spec, push_char, string_from_chars, trim_chars, trim_spec,
};

verus! {

/// The only request represented by this decoder's protocol vocabulary.
pub const MODE03_REQUEST: [u8; 1] = [0x03];

/// Positive response service byte for OBD-II Mode 03.
pub const MODE03_POSITIVE_RESPONSE: u8 = 0x43;

/// The first letter of a standardized five-character OBD-II DTC.
#[derive(Clone, Copy, Debug, Eq, Hash, Ord, PartialEq, PartialOrd)]
pub enum DtcSystem {
    Powertrain,
    Chassis,
    Body,
    Network,
}

/// The letter of each system.
pub open spec fn system_prefix(system: DtcSystem) -> char {
    match system {
        DtcSystem::Powertrain => 'P',
        DtcSystem::Chassis => 'C',
        DtcSystem::Body => 'B',
        DtcSystem::Network => 'U',
    }
}

/// The rank of each system in the code order.
pub open spec fn system_rank(system: DtcSystem) -> int {
    match system {
        DtcSystem::Powertrain => 0,
        DtcSystem::Chassis => 1,
        DtcSystem::Body => 2,
        DtcSystem::Network => 3,
    }
}

/// The system selected by the two top bits of a code's first byte.
pub open spec fn system_of(byte: u8) -> DtcSystem {
    if byte / 64 == 0 {
        DtcSystem::Powertrain
    } else if byte / 64 == 1 {
        DtcSystem::Chassis
    } else if byte / 64 == 2 {
        DtcSystem::Body
    } else {
        DtcSystem::Network
    }
}

/// A validated standardized OBD-II DTC.
///
/// `number` holds the four hexadecimal digits after the system letter.
#[derive(Clone, Copy, Debug, Eq, Hash, Ord, PartialEq, PartialOrd)]
pub struct DtcCode {
    system: DtcSystem,
    number: u16,
}

/// The model of a code.
pub struct DtcCodeView {
    pub system: DtcSystem,
    pub number: u16,
}

impl View for DtcCode {
    type V = DtcCodeView;

    closed spec fn view(&self) -> DtcCodeView {
        DtcCodeView { system: self.system, number: self.number }
    }
}

/// The position of a code in the code order: system first, then number.
pub open spec fn code_key(code: DtcCodeView) -> int {
    system_rank(code.system) * 65536 + code.number
}

/// Codes are ordered by system, then by number.
pub open spec fn code_le(a: DtcCodeView, b: DtcCodeView) -> bool {
    code_key(a) <= code_key(b)
}

/// The uppercase hexadecimal digit of a value below 16.
pub open spec fn hex_digit(value: int) -> char {
    if value < 10 {
        ((value + 48) as u8) as char
    } else {
        ((value + 55) as u8) as char
    }
}

/// The five-character text of a code, such as `P010C`.
pub open spec fn code_text(code: DtcCodeView) -> Seq<char> {
    seq![
        system_prefix(code.system),
        hex_digit(code.number as int / 4096),
        hex_digit((code.number as int / 256) % 16),
        hex_digit((code.number as int / 16) % 16),
        hex_digit(code.number as int % 16),
    ]
}

fn hex_digit_exec(value: u16) -> (r: char)
    requires
        value < 16,
    ensures
        r == hex_digit(value as int),
{
    if value < 10 {
        ((value + 48) as u8) as char
    } else {
        ((value + 55) as u8) as char
    }
}

impl DtcCode {
    pub fn system(self) -> (r: DtcSystem)
        ensures
            r == self@.system,
    {
        self.system
    }

    /// Return the four hexadecimal digits after the system letter.
    pub fn number(self) -> (r: u16)
        ensures
            r == self@.number,
    {
        self.number
    }

    /// The standardized five-character text of this code.
    pub fn to_string(&self) -> (r: String)
        ensures
            r@ == code_text(self@),
    {
        let prefix = match self.system {
            DtcSystem::Powertrain => 'P',
            DtcSystem::Chassis => 'C',
            DtcSystem::Body => 'B',
            DtcSystem::Network => 'U',
        };
        let mut out = String::new();
        push_char(&mut out, prefix);
        push_char(&mut out, hex_digit_exec(self.number / 4096));
        push_char(&mut out, hex_digit_exec((self.number / 256) % 16));
        push_char(&mut out, hex_digit_exec((self.number / 16) % 16));
        push_char(&mut out, hex_digit_exec(self.number % 16));
        assert(out@ =~= code_text(self@));
        out
    }

    fn same(&self, other: &Self) -> (r: bool)
        ensures
            r == (self@ == other@),
    {
        let system_same = match (self.system, other.system) {
            (DtcSystem::Powertrain, DtcSystem::Powertrain) => true,
            (DtcSystem::Chassis, DtcSystem::Chassis) => true,
            (DtcSystem::Body, DtcSystem::Body) => true,
            (DtcSystem::Network, DtcSystem::Network) => true,
            _ => false,
        };
        system_same && self.number == other.number
    }
}

impl Ordered for DtcCode {
    open spec fn model_le(a: DtcCodeView, b: DtcCodeView) -> bool {
        code_le(a, b)
    }

    proof fn lemma_model_le_total_ordering() {
        let le = |a: DtcCodeView, b: DtcCodeView| Self::model_le(a, b);
        assert(reflexive(le));
        assert(antisymmetric(le)) by {
            assert forall|x: DtcCodeView, y: DtcCodeView| #[trigger] le(x, y) && #[trigger] le(y, x)
                implies x == y by {
                assert(code_key(x) == code_key(y));
                assert(x.system == y.system);
                assert(x.number == y.number);
            }
        }
        assert(transitive(le));
        assert(strongly_connected(le));
    }

    fn le(&self, other: &Self) -> (r: bool) {
        let a: u32 = match self.system {
            DtcSystem::Powertrain => 0,
            DtcSystem::Chassis => 1,
            DtcSystem::Body => 2,
            DtcSystem::Network => 3,
        };
        let b: u32 = match other.system {
            DtcSystem::Powertrain => 0,
            DtcSystem::Chassis => 1,
            DtcSystem::Body => 2,
            DtcSystem::Network => 3,
        };
        a * 65536 + self.number as u32 <= b * 65536 + other.number as u32
    }
}

/// An opaque, privacy-safe label for the adapter metadata that identified a
/// responder. Control characters are refused to prevent log/output
/// injection; the value is not interpreted as a CAN or UDS address. It has
/// no `Debug` form, so debug output never carries the identity.
#[derive(Clone, Eq, Hash, Ord, PartialEq, PartialOrd)]
pub struct ResponderIdentity(String);

impl View for ResponderIdentity {
    type V = Seq<char>;

    closed spec fn view(&self) -> Seq<char> {
        self.0@
    }
}

/// Some character of the text is a control character.
pub open spec fn has_control(s: Seq<char>) -> bool {
    exists|i: int| 0 <= i < s.len() && is_control_spec(#[trigger] s[i])
}

impl ResponderIdentity {
    /// The identity is the trimmed text, which must be non-empty and free of
    /// control characters.
    pub fn new(value: &str) -> (r: Result<Self, ResponderIdentityError>)
        ensures
            trim_spec(value@).len() == 0 ==> r == Err::<Self, ResponderIdentityError>(
                ResponderIdentityError::Empty,
            ),
            trim_spec(value@).len() > 0 && has_control(trim_spec(value@)) ==> r == Err::<
                Self,
                ResponderIdentityError,
            >(ResponderIdentityError::ControlCharacter),
            trim_spec(value@).len() > 0 && !has_control(trim_spec(value@)) ==> (r matches Ok(
                identity,
            ) && identity@ == trim_spec(value@)),
    {
        let trimmed = trim_chars(value);
        if trimmed.len() == 0 {
            return Err(ResponderIdentityError::Empty);
        }
        let mut i: usize = 0;
        while i < trimmed.len()
            invariant
                i <= trimmed@.len(),
                trimmed@ == trim_spec(value@),
                trimmed@.len() > 0,
                forall|j: int| 0 <= j < i ==> !is_control_spec(#[trigger] trimmed@[j]),
            decreases trimmed@.len() - i,
        {
            if is_control(trimmed[i]) {
                return Err(ResponderIdentityError::ControlCharacter);
            }
            i += 1;
        }
        Ok(Self(string_from_chars(trimmed.as_slice())))
    }

    pub fn as_str(&self) -> (r: &str)
        ensures
            r@ == self@,
    {
        self.0.as_str()
    }

    /// A copy of this identity.
    pub fn duplicate(&self) -> (r: Self)
        ensures
            r == *self,
    {
        Self(self.0.clone())
    }
}

#[derive(Clone, Copy, Debug, Eq, Hash, Ord, PartialEq, PartialOrd)]
pub enum ResponderIdentityError {
    Empty,
    ControlCharacter,
}

/// One normalized Mode 03 response and its optional adapter-level source.
#[derive(Clone, Eq, PartialEq)]
pub struct ResponseEvidence {
    pub responder: Option<ResponderIdentity>,
    pub payload: Vec<u8>,
}

impl ResponseEvidence {
    pub fn new(responder: Option<ResponderIdentity>, payload: Vec<u8>) -> (r: Self)
        ensures
            r.responder == responder,
            r.payload@ == payload@,
    {
        Self { responder, payload }
    }

    pub fn unknown(payload: Vec<u8>) -> (r: Self)
        ensures
            r.responder is None,
            r.payload@ == payload@,
    {
        Self::new(None, payload)
    }
}

/// Source identity attached to one decoded response.
#[derive(Clone, Eq, Hash, Ord, PartialEq, PartialOrd)]
pub enum DtcSource {
    Unknown,
    Responder(ResponderIdentity),
}

impl View for DtcSource {
    type V = Option<Seq<char>>;

    open spec fn view(&self) -> Option<Seq<char>> {
        match self {
            DtcSource::Unknown => None,
            DtcSource::Responder(identity) => Some(identity@),
        }
    }
}

impl DtcSource {
    pub fn responder(&self) -> (r: Option<&ResponderIdentity>)
        ensures
            match self {
                DtcSource::Unknown => r is None,
                DtcSource::Responder(identity) => r == Some(identity),
            },
    {
        match self {
            Self::Unknown => None,
            Self::Responder(identity) => Some(identity),
        }
    }
}

/// Errors from a normalized Mode 03 payload.
#[derive(Clone, Copy, Debug, Eq, Hash, Ord, PartialEq, PartialOrd)]
pub enum DtcDecodeError {
    /// The payload has the Mode 03 service byte but not complete DTC pairs.
    MalformedResponse,
    /// The payload is not a recognized positive Mode 03 response.
    UnknownResponse,
}

/// The factual result of decoding one responder's Mode 03 answer.
#[derive(Clone, Debug, Eq, Hash, Ord, PartialEq, PartialOrd)]
pub enum DtcResponse {
    NoDtcs,
    Stored(Vec<DtcCode>),
    Error(DtcDecodeError),
}

/// The model of a decoded response.
pub enum DtcResponseView {
    NoDtcs,
    Stored(Seq<DtcCodeView>),
    Error(DtcDecodeError),
}

impl View for DtcResponse {
    type V = DtcResponseView;

    open spec fn view(&self) -> DtcResponseView {
        match self {
            DtcResponse::NoDtcs => DtcResponseView::NoDtcs,
            DtcResponse::Stored(codes) => DtcResponseView::Stored(models(codes@)),
            DtcResponse::Error(error) => DtcResponseView::Error(*error),
        }
    }
}

impl DtcResponse {
    pub fn dtcs(&self) -> (r: &[DtcCode])
        ensures
            match self@ {
                DtcResponseView::Stored(codes) => models(r@) == codes,
                _ => r@.len() == 0,
            },
    {
        match self {
            Self::Stored(dtcs) => dtcs.as_slice(),
            Self::NoDtcs | Self::Error(_) => {
                let empty: &[DtcCode] = &[];
                empty
            },
        }
    }

    pub fn is_no_dtcs(&self) -> (r: bool)
        ensures
            r == (self@ is NoDtcs),
    {
        matches!(self, Self::NoDtcs)
    }
}

/// The code carried by the `i`-th byte pair.
pub open spec fn code_at(bytes: Seq<u8>, i: int) -> DtcCodeView {
    DtcCodeView {
        system: system_of(bytes[2 * i]),
        number: ((bytes[2 * i] % 64) as int * 256 + bytes[2 * i + 1]) as u16,
    }
}

/// The `i`-th byte pair is the `00 00` no-code marker.
pub open spec fn is_zero_pair(bytes: Seq<u8>, i: int) -> bool {
    bytes[2 * i] == 0 && bytes[2 * i + 1] == 0
}

/// The index of the first `00 00` pair at or after pair `i`, or the number
/// of pairs when there is none.
pub open spec fn first_zero_pair(bytes: Seq<u8>, i: int) -> int
    decreases bytes.len() / 2 - i,
{
    if i < 0 || i >= bytes.len() / 2 {
        (bytes.len() / 2) as int
    } else if is_zero_pair(bytes, i) {
        i
    } else {
        first_zero_pair(bytes, i + 1)
    }
}

/// Every byte from index `from` on is zero.
pub open spec fn zero_from(bytes: Seq<u8>, from: int) -> bool {
    forall|j: int| from <= j < bytes.len() ==> #[trigger] bytes[j] == 0
}

/// Adjacent repetitions removed from a sequence.
pub open spec fn dedup_adjacent<A>(s: Seq<A>) -> Seq<A>
    decreases s.len(),
{
    if s.len() <= 1 {
        s
    } else if s.last() == s[s.len() - 2] {
        dedup_adjacent(s.drop_last())
    } else {
        dedup_adjacent(s.drop_last()).push(s.last())
    }
}

/// The decoded codes, in code order and without repetitions.
pub open spec fn canonical_codes(codes: Seq<DtcCodeView>) -> Seq<DtcCodeView> {
    dedup_adjacent(codes.sort_by(model_leq::<DtcCode>()))
}

/// Decoding of one normalized Mode 03 payload. Codes run until the first
/// `00 00` marker, which may only be followed by zero padding.
pub open spec fn mode03_decode(payload: Seq<u8>) -> DtcResponseView {
    if payload.len() == 0 {
        DtcResponseView::Error(DtcDecodeError::MalformedResponse)
    } else if payload[0] != MODE03_POSITIVE_RESPONSE {
        DtcResponseView::Error(DtcDecodeError::UnknownResponse)
    } else {
        let bytes = payload.drop_first();
        if bytes.len() == 0 || bytes.len() % 2 != 0 {
            DtcResponseView::Error(DtcDecodeError::MalformedResponse)
        } else {
            let k = first_zero_pair(bytes, 0);
            if k < bytes.len() / 2 && !zero_from(bytes, 2 * k + 2) {
                DtcResponseView::Error(DtcDecodeError::MalformedResponse)
            } else if k == 0 {
                DtcResponseView::NoDtcs
            } else {
                DtcResponseView::Stored(canonical_codes(Seq::new(k as nat, |i: int| code_at(bytes, i))))
            }
        }
    }
}

proof fn lemma_first_zero_pair_bounds(bytes: Seq<u8>, i: int)
    requires
        0 <= i <= bytes.len() / 2,
    ensures
        i <= first_zero_pair(bytes, i) <= bytes.len() / 2,
        first_zero_pair(bytes, i) < bytes.len() / 2 ==> is_zero_pair(bytes, first_zero_pair(bytes, i)),
        forall|j: int| i <= j < first_zero_pair(bytes, i) ==> !is_zero_pair(bytes, j),
    decreases bytes.len() / 2 - i,
{
    if i < bytes.len() / 2 && !is_zero_pair(bytes, i) {
        lemma_first_zero_pair_bounds(bytes, i + 1);
    }
}

/// Decode one normalized positive Mode 03 payload.
pub fn decode_mode03_payload(payload: &[u8]) -> (r: Result<DtcResponse, DtcDecodeError>)
    ensures
        match mode03_decode(payload@) {
            DtcResponseView::Error(error) => r == Err::<DtcResponse, DtcDecodeError>(error),
            view => (r matches Ok(response) && response@ == view),
        },
{
    if payload.len() == 0 {
        return Err(DtcDecodeError::MalformedResponse);
    }
    if payload[0] != MODE03_POSITIVE_RESPONSE {
        return Err(DtcDecodeError::UnknownResponse);
    }
    let ghost bytes = payload@.drop_first();
    let n = payload.len() - 1;
    if n == 0 || n % 2 != 0 {
        return Err(DtcDecodeError::MalformedResponse);
    }
    let mut dtcs: Vec<DtcCode> = Vec::new();
    let mut index: usize = 0;
    let mut at_marker = false;
    while index < n / 2 && !at_marker
        invariant
            n == bytes.len(),
            payload@.len() == n + 1,
            bytes == payload@.drop_first(),
            n % 2 == 0,
            n > 0,
            payload@[0] == MODE03_POSITIVE_RESPONSE,
            index <= n / 2,
            forall|j: int| 0 <= j < index ==> !is_zero_pair(bytes, j),
            at_marker ==> index < n / 2 && is_zero_pair(bytes, index as int) && zero_from(
                bytes,
                2 * index + 2,
            ),
            models(dtcs@) == Seq::new(index as nat, |i: int| code_at(bytes, i)),
        decreases n / 2 - index + (if at_marker { 0int } else { 1int }),
    {
        let high = payload[1 + 2 * index];
        let low = payload[2 + 2 * index];
        assert(high == bytes[2 * index as int] && low == bytes[2 * index + 1]);
        if high == 0 && low == 0 {
            assert(is_zero_pair(bytes, index as int));
            let mut j = 2 * index + 2;
            while j < n
                invariant
                    2 * index + 2 <= j <= n,
                    index < n / 2,
                    n % 2 == 0,
                    n > 0,
                    payload@[0] == MODE03_POSITIVE_RESPONSE,
                    is_zero_pair(bytes, index as int),
                    forall|jj: int| 0 <= jj < index ==> !is_zero_pair(bytes, jj),
                    n == bytes.len(),
                    payload@.len() == n + 1,
                    bytes == payload@.drop_first(),
                    forall|m: int| 2 * index + 2 <= m < j ==> #[trigger] bytes[m] == 0,
                decreases n - j,
            {
                if payload[1 + j] != 0 {
                    proof {
                        assert(bytes[j as int] != 0);
                        lemma_first_zero_pair_at(bytes, index as int);
                        assert(!zero_from(bytes, 2 * index + 2));
                    }
                    return Err(DtcDecodeError::MalformedResponse);
                }
                j += 1;
            }
            at_marker = true;
        } else {
            let code = DtcCode {
                system: if high >> 6 == 0 {
                    DtcSystem::Powertrain
                } else if high >> 6 == 1 {
                    DtcSystem::Chassis
                } else if high >> 6 == 2 {
                    DtcSystem::Body
                } else {
                    DtcSystem::Network
                },
                number: (((high & 0x3f) as u16) << 8) | low as u16,
            };
            assert(high >> 6 == high / 64) by (bit_vector);
            assert((((high & 0x3f) as u16) << 8) | low as u16 == ((high % 64) as int * 256
                + low) as u16) by (bit_vector);
            let ghost before = models(dtcs@);
            dtcs.push(code);
            assert(models(dtcs@) =~= before.push(code@));
            assert(models(dtcs@) =~= Seq::new((index + 1) as nat, |i: int| code_at(bytes, i)));
            index += 1;
        }
    }
    proof {
        lemma_first_zero_pair_at(bytes, index as int);
    }
    if dtcs.len() == 0 {
        return Ok(DtcResponse::NoDtcs);
    }
    let sorted = sort_by_model(dtcs);
    let deduped = dedup_codes(sorted);
    Ok(DtcResponse::Stored(deduped))
}

/// When all pairs before `index` are codes and pair `index` is a marker (or
/// the pairs end), `index` is the first marker.
proof fn lemma_first_zero_pair_at(bytes: Seq<u8>, index: int)
    requires
        0 <= index <= bytes.len() / 2,
        forall|j: int| 0 <= j < index ==> !is_zero_pair(bytes, j),
        index < bytes.len() / 2 ==> is_zero_pair(bytes, index),
    ensures
        first_zero_pair(bytes, 0) == index,
{
    lemma_first_zero_pair_bounds(bytes, 0);
    let k = first_zero_pair(bytes, 0);
    if k < index {
        assert(is_zero_pair(bytes, k));
    } else if k > index {
        assert(!is_zero_pair(bytes, index));
    }
}

/// Remove adjacent repetitions from codes already in code order.
fn dedup_codes(sorted: Vec<DtcCode>) -> (r: Vec<DtcCode>)
    ensures
        models(r@) == dedup_adjacent(models(sorted@)),
{
    let ghost s = models(sorted@);
    let mut out: Vec<DtcCode> = Vec::new();
    let mut i: usize = 0;
    while i < sorted.len()
        invariant
            i <= sorted@.len(),
            s == models(sorted@),
            models(out@) == dedup_adjacent(s.take(i as int)),
            i > 0 ==> out@.len() > 0 && out@.last()@ == s[i - 1],
        decreases sorted@.len() - i,
    {
        let ghost prefix = s.take(i as int + 1);
        assert(prefix.drop_last() =~= s.take(i as int));
        proof {
            lemma_dedup_last(s.take(i as int));
        }
        if i == 0 || !sorted[i].same(&out[out.len() - 1]) {
            let ghost before = models(out@);
            out.push(sorted[i]);
            assert(models(out@) =~= before.push(sorted@[i as int]@));
        }
        i += 1;
    }
    assert(s.take(sorted@.len() as int) =~= s);
    out
}

/// The deduplicated sequence ends with the last element.
pub(crate) proof fn lemma_dedup_last<A>(s: Seq<A>)
    ensures
        s.len() > 0 ==> dedup_adjacent(s).len() > 0 && dedup_adjacent(s).last() == s.last(),
        s.len() == 0 ==> dedup_adjacent(s).len() == 0,
    decreases s.len(),
{
    if s.len() > 1 {
        lemma_dedup_last(s.drop_last());
    }
}

/// One response remains one result, even when another responder has the same
/// DTC. This prevents a vehicle-wide merge from hiding responder evidence.
#[derive(Clone, Eq, Hash, Ord, PartialEq, PartialOrd)]
pub struct DtcObservation {
    source: DtcSource,
    response: DtcResponse,
}

/// The model of one observation.
pub struct DtcObservationView {
    pub source: Option<Seq<char>>,
    pub response: DtcResponseView,
}

impl View for DtcObservation {
    type V = DtcObservationView;

    closed spec fn view(&self) -> DtcObservationView {
        DtcObservationView { source: self.source@, response: self.response@ }
    }
}

impl DtcObservation {
    pub fn source(&self) -> (r: &DtcSource)
        ensures
            r@ == self@.source,
    {
        &self.source
    }

    pub fn response(&self) -> (r: &DtcResponse)
        ensures
            r@ == self@.response,
    {
        &self.response
    }
}

/// The order key of a source: unknown first, then responders by text.
pub open spec fn source_key(source: Option<Seq<char>>) -> Seq<int> {
    match source {
        None => seq![0int],
        Some(text) => seq![1int] + char_codes(text),
    }
}

/// The order key of a response: no codes, then stored codes (compared code by
/// code), then errors.
pub open spec fn response_key(response: DtcResponseView) -> Seq<int> {
    match response {
        DtcResponseView::NoDtcs => seq![0int],
        DtcResponseView::Stored(codes) => seq![1int] + codes.map_values(|c: DtcCodeView| code_key(c)),
        DtcResponseView::Error(DtcDecodeError::MalformedResponse) => seq![2int, 0int],
        DtcResponseView::Error(DtcDecodeError::UnknownResponse) => seq![2int, 1int],
    }
}

/// The order key of an observation: its source, then its response.
pub open spec fn observation_key(o: DtcObservationView) -> (Seq<int>, Seq<int>) {
    (source_key(o.source), response_key(o.response))
}

/// Observations are ordered by source and then by response.
pub open spec fn observation_le(a: DtcObservationView, b: DtcObservationView) -> bool {
    pair_le(
        observation_key(a),
        observation_key(b),
        |x: Seq<int>, y: Seq<int>| ints_le(x, y),
        |x: Seq<int>, y: Seq<int>| ints_le(x, y),
    )
}

proof fn lemma_observation_key_injective(a: DtcObservationView, b: DtcObservationView)
    requires
        observation_key(a) == observation_key(b),
    ensures
        a == b,
{
    assert(source_key(a.source) == source_key(b.source));
    assert(response_key(a.response) == response_key(b.response));
    match (a.source, b.source) {
        (Some(x), Some(y)) => {
            assert(char_codes(x) =~= source_key(a.source).drop_first());
            assert(char_codes(y) =~= source_key(b.source).drop_first());
            lemma_char_codes_injective(x, y);
        },
        (None, Some(y)) => {
            assert(source_key(b.source)[0] == 1);
        },
        (Some(x), None) => {
            assert(source_key(a.source)[0] == 1);
        },
        _ => {},
    }
    let ka = response_key(a.response);
    let kb = response_key(b.response);
    match (a.response, b.response) {
        (DtcResponseView::Stored(x), DtcResponseView::Stored(y)) => {
            let fx = x.map_values(|c: DtcCodeView| code_key(c));
            let fy = y.map_values(|c: DtcCodeView| code_key(c));
            assert(fx =~= ka.drop_first());
            assert(fy =~= kb.drop_first());
            assert(x.len() == y.len());
            assert forall|i: int| 0 <= i < x.len() implies x[i] == y[i] by {
                assert(fx[i] == fy[i]);
                assert(code_key(x[i]) == code_key(y[i]));
            }
            assert(x =~= y);
        },
        _ => {
            assert(ka[0] == kb[0]);
            if ka.len() > 1 {
                assert(ka[1] == kb[1]);
            }
        },
    }
}

impl Ordered for DtcObservation {
    open spec fn model_le(a: DtcObservationView, b: DtcObservationView) -> bool {
        observation_le(a, b)
    }

    proof fn lemma_model_le_total_ordering() {
        let ile = |x: Seq<int>, y: Seq<int>| ints_le(x, y);
        lemma_ints_le_total_ordering();
        lemma_pair_le_total_ordering(ile, ile);
        let ple = |p: (Seq<int>, Seq<int>), q: (Seq<int>, Seq<int>)| pair_le(p, q, ile, ile);
        let key = |o: DtcObservationView| observation_key(o);
        assert forall|a: DtcObservationView, b: DtcObservationView| #[trigger] key(a) == #[trigger] key(b)
            implies a == b by {
            lemma_observation_key_injective(a, b);
        }
        lemma_mapped_total_ordering(key, ple);
        let le = |a: DtcObservationView, b: DtcObservationView| Self::model_le(a, b);
        let mapped = |a: DtcObservationView, b: DtcObservationView| ple(key(a), key(b));
        assert forall|a: DtcObservationView, b: DtcObservationView| #[trigger] le(a, b) == mapped(a, b) by {}
        assert(le =~= mapped);
    }

    fn le(&self, other: &Self) -> (r: bool) {
        let sa = source_key_exec(&self.source);
        let sb = source_key_exec(&other.source);
        let ra = response_key_exec(&self.response);
        let rb = response_key_exec(&other.response);
        let s_le = ints_le_exec(&sa, &sb);
        let s_ge = ints_le_exec(&sb, &sa);
        proof {
            let ka = source_key(self@.source);
            let kb = source_key(other@.source);
            if s_le && s_ge {
                lemma_ints_le_antisymmetric(ka, kb);
            }
            if ka == kb {
                crate::order::lemma_ints_le_reflexive(ka);
            }
        }
        (s_le && !s_ge) || (s_le && s_ge && ints_le_exec(&ra, &rb))
    }
}

fn source_key_exec(source: &DtcSource) -> (r: Vec<i64>)
    ensures
        int_values(r@) == source_key(source@),
{
    let mut r: Vec<i64> = Vec::new();
    match source {
        DtcSource::Unknown => {
            r.push(0);
        },
        DtcSource::Responder(identity) => {
            r.push(1);
            let chars = chars_of(identity.as_str());
            let mut i: usize = 0;
            while i < chars.len()
                invariant
                    i <= chars@.len(),
                    chars@ == identity@,
                    int_values(r@) =~= seq![1int] + char_codes(chars@.take(i as int)),
                decreases chars@.len() - i,
            {
                let ghost before = r@;
                let v: i64 = char_code(chars[i]);
                r.push(v);
                assert(r@ =~= before.push(v));
                assert(int_values(r@) =~= int_values(before).push(
                    chars@[i as int] as int,
                ));
                assert(char_codes(chars@.take(i + 1)) =~= char_codes(chars@.take(i as int)).push(
                    chars@[i as int] as int,
                ));
                i += 1;
            }
            assert(chars@.take(chars@.len() as int) =~= chars@);
        },
    }
    assert(int_values(r@) =~= source_key(source@));
    r
}

fn response_key_exec(response: &DtcResponse) -> (r: Vec<i64>)
    ensures
        int_values(r@) == response_key(response@),
{
    let mut r: Vec<i64> = Vec::new();
    match response {
        DtcResponse::NoDtcs => {
            r.push(0);
        },
        DtcResponse::Stored(codes) => {
            r.push(1);
            let mut i: usize = 0;
            while i < codes.len()
                invariant
                    i <= codes@.len(),
                    int_values(r@) =~= seq![1int] + models(codes@).take(i as int).map_values(|c: DtcCodeView| code_key(c)),
                decreases codes@.len() - i,
            {
                let rank: i64 = match codes[i].system {
                    DtcSystem::Powertrain => 0,
                    DtcSystem::Chassis => 1,
                    DtcSystem::Body => 2,
                    DtcSystem::Network => 3,
                };
                let ghost before = r@;
                r.push(rank * 65536 + codes[i].number as i64);
                assert(int_values(r@) =~= int_values(before).push(
                    code_key(codes@[i as int]@),
                ));
                assert(models(codes@).take(i + 1).map_values(|c: DtcCodeView| code_key(c))
                    =~= models(codes@).take(i as int).map_values(|c: DtcCodeView| code_key(c)).push(
                    code_key(codes@[i as int]@),
                ));
                i += 1;
            }
            assert(models(codes@).take(codes@.len() as int) =~= models(codes@));
        },
        DtcResponse::Error(DtcDecodeError::MalformedResponse) => {
            r.push(2);
            r.push(0);
        },
        DtcResponse::Error(DtcDecodeError::UnknownResponse) => {
            r.push(2);
            r.push(1);
        },
    }
    assert(int_values(r@) =~= response_key(response@));
    r
}

/// Deterministic Mode 03 results, ordered by source and then response.
#[derive(Clone, Eq, PartialEq)]
pub struct DtcScanResult {
    observations: Vec<DtcObservation>,
}

impl View for DtcScanResult {
    type V = Seq<DtcObservationView>;

    closed spec fn view(&self) -> Seq<DtcObservationView> {
        models(self.observations@)
    }
}

impl DtcScanResult {
    pub fn observations(&self) -> (r: &[DtcObservation])
        ensures
            models(r@) == self@,
    {
        self.observations.as_slice()
    }
}

/// The observation that one piece of evidence decodes to.
pub open spec fn decode_evidence(evidence: ResponseEvidence) -> DtcObservationView {
    DtcObservationView {
        source: match evidence.responder {
            None => None,
            Some(identity) => Some(identity@),
        },
        response: mode03_decode(evidence.payload@),
    }
}

/// Decode normalized Mode 03 response evidence.
///
/// Every input response produces one observation. A malformed or unknown
/// response is recoverable and stays attached to its responder; it does not
/// discard successful results from other responders. The observations are
/// in source order, then response order.
pub fn decode_mode03(evidence: &[ResponseEvidence]) -> (r: DtcScanResult)
    ensures
        r@ == evidence@.map_values(|e: ResponseEvidence| decode_evidence(e)).sort_by(
            model_leq::<DtcObservation>(),
        ),
{
    let mut observations: Vec<DtcObservation> = Vec::new();
    let mut i: usize = 0;
    while i < evidence.len()
        invariant
            i <= evidence@.len(),
            models(observations@) =~= evidence@.take(i as int).map_values(
                |e: ResponseEvidence| decode_evidence(e),
            ),
        decreases evidence@.len() - i,
    {
        let source = match &evidence[i].responder {
            Some(identity) => DtcSource::Responder(identity.duplicate()),
            None => DtcSource::Unknown,
        };
        let response = match decode_mode03_payload(evidence[i].payload.as_slice()) {
            Ok(response) => response,
            Err(error) => DtcResponse::Error(error),
        };
        let observation = DtcObservation { source, response };
        assert(observation@ == decode_evidence(evidence@[i as int]));
        let ghost before = models(observations@);
        observations.push(observation);
        assert(models(observations@) =~= before.push(observation@));
        assert(evidence@.take(i + 1).map_values(|e: ResponseEvidence| decode_evidence(e))
            =~= evidence@.take(i as int).map_values(|e: ResponseEvidence| decode_evidence(e)).push(
            decode_evidence(evidence@[i as int]),
        ));
        i += 1;
    }
    assert(evidence@.take(evidence@.len() as int) =~= evidence@);
    let sorted = sort_by_model(observations);
    DtcScanResult { observations: sorted }
}


/// Decoding Mode 03 evidence does not depend on the order in which the
/// responses arrived: evidence with the same responses in another order
/// decodes to the same observations.
pub proof fn law_decode_mode03_ignores_arrival_order(first: Seq<ResponseEvidence>, second: Seq<ResponseEvidence>)
    requires
        first.to_multiset() == second.to_multiset(),
    ensures
        first.map_values(|e: ResponseEvidence| decode_evidence(e)).sort_by(model_leq::<DtcObservation>())
            == second.map_values(|e: ResponseEvidence| decode_evidence(e)).sort_by(
            model_leq::<DtcObservation>(),
        ),
{
    let f = |e: ResponseEvidence| decode_evidence(e);
    lemma_map_values_multiset(first, second, f);
    DtcObservation::lemma_model_le_total_ordering();
    lemma_sort_by_permutation(first.map_values(f), second.map_values(f), model_leq::<DtcObservation>());
}


impl ResponderIdentityError {
    /// The message of this error.
    pub fn message(&self) -> (r: &'static str)
        ensures
            match self {
                ResponderIdentityError::Empty => r@ == "responder identity must not be empty"@,
                ResponderIdentityError::ControlCharacter => r@ == "responder identity must not contain control characters"@,
            },
    {
        match self {
            ResponderIdentityError::Empty => "responder identity must not be empty",
            ResponderIdentityError::ControlCharacter => "responder identity must not contain control characters",
        }
    }
}

impl DtcDecodeError {
    /// The message of this error.
    pub fn message(&self) -> (r: &'static str)
        ensures
            match self {
                DtcDecodeError::MalformedResponse => r@ == "malformed OBD-II Mode 03 response"@,
                DtcDecodeError::UnknownResponse => r@ == "unknown OBD-II Mode 03 response"@,
            },
    {
        match self {
            DtcDecodeError::MalformedResponse => "malformed OBD-II Mode 03 response",
            DtcDecodeError::UnknownResponse => "unknown OBD-II Mode 03 response",
        }
    }
}


} // verus!
