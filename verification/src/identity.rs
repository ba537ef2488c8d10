//! Vehicle identity from the standards-based Mode 09 PID 02 response.

use vstd::prelude::*;

use vstd::string::StringSliceAdditionalSpecFns;

use crate::text::push_char;

verus! {

/// The only diagnostic request used by this identity layer.
pub const MODE09_PID02_REQUEST: [u8; 2] = [0x09, 0x02];

/// Number of characters in a VIN.
pub const VIN_LENGTH: usize = 17;

/// The characters a VIN may hold: digits and capital letters other than
/// `I` and `O`.
pub open spec fn is_vin_byte(byte: u8) -> bool {
    ||| (0x30 <= byte && byte <= 0x39)
    ||| (0x41 <= byte && byte <= 0x48)
    ||| (0x4A <= byte && byte <= 0x4E)
    ||| (0x50 <= byte && byte <= 0x52)
    ||| (0x53 <= byte && byte <= 0x5A)
}

fn is_vin_character(byte: u8) -> (r: bool)
    ensures
        r == is_vin_byte(byte),
{
    (byte >= 0x30 && byte <= 0x39) || (byte >= 0x41 && byte <= 0x48) || (byte >= 0x4A && byte
        <= 0x4E) || (byte >= 0x50 && byte <= 0x52) || (byte >= 0x53 && byte <= 0x5A)
}

/// The outcome of validating candidate VIN bytes.
pub open spec fn vin_check(bytes: Seq<u8>) -> Result<Seq<u8>, VinError> {
    if bytes.len() != VIN_LENGTH {
        Err(VinError::InvalidLength)
    } else if exists|i: int| 0 <= i < bytes.len() && !is_vin_byte(#[trigger] bytes[i]) {
        Err(VinError::InvalidCharacter)
    } else {
        Ok(bytes)
    }
}

/// The text of ASCII bytes.
pub open spec fn ascii_text(bytes: Seq<u8>) -> Seq<char> {
    Seq::new(bytes.len(), |i: int| bytes[i] as char)
}

/// A validated 17-character vehicle identification number.
///
/// The characters are kept private so callers cannot construct an
/// unvalidated VIN.
#[derive(Eq, Hash, PartialEq)]
pub struct Vin {
    bytes: Vec<u8>,
    text: String,
}

impl View for Vin {
    type V = Seq<u8>;

    closed spec fn view(&self) -> Seq<u8> {
        self.bytes@
    }
}

impl Vin {
    /// Every value of the type holds a valid VIN, and its text is that of
    /// its bytes.
    #[verifier::type_invariant]
    closed spec fn well_formed(self) -> bool {
        &&& vin_check(self.bytes@) == Ok::<Seq<u8>, VinError>(self.bytes@)
        &&& self.text@ == ascii_text(self.bytes@)
    }

    /// A VIN read from text: the bytes of the text's UTF-8 encoding must be
    /// a valid VIN.
    pub fn parse(value: &str) -> (r: Result<Self, VinError>)
        ensures
            match vin_check(value.spec_bytes()) {
                Ok(bytes) => (r matches Ok(vin) && vin@ == bytes),
                Err(error) => r == Err::<Self, VinError>(error),
            },
    {
        Self::from_bytes(value.as_bytes())
    }

    pub fn from_bytes(value: &[u8]) -> (r: Result<Self, VinError>)
        ensures
            match vin_check(value@) {
                Ok(bytes) => (r matches Ok(vin) && vin@ == bytes),
                Err(error) => r == Err::<Self, VinError>(error),
            },
    {
        if value.len() != VIN_LENGTH {
            return Err(VinError::InvalidLength);
        }
        let mut bytes: Vec<u8> = Vec::new();
        let mut text = String::new();
        let mut index: usize = 0;
        while index < value.len()
            invariant
                value@.len() == VIN_LENGTH,
                index <= value@.len(),
                bytes@ == value@.take(index as int),
                text@ == ascii_text(bytes@),
                forall|i: int| 0 <= i < index ==> is_vin_byte(#[trigger] value@[i]),
            decreases value@.len() - index,
        {
            let byte = value[index];
            if !is_vin_character(byte) {
                return Err(VinError::InvalidCharacter);
            }
            let ghost before = bytes@;
            bytes.push(byte);
            push_char(&mut text, ascii_char(byte));
            assert(bytes@ =~= value@.take(index + 1));
            assert(text@ =~= ascii_text(bytes@));
            index += 1;
        }
        assert(bytes@ =~= value@);
        Ok(Vin { bytes, text })
    }

    /// The VIN as text.
    pub fn as_str(&self) -> (r: &str)
        ensures
            r@ == ascii_text(self@),
    {
        proof {
            use_type_invariant(self);
        }
        self.text.as_str()
    }

    /// A copy of this VIN.
    pub fn duplicate(&self) -> (r: Self)
        ensures
            r@ == self@,
    {
        proof {
            use_type_invariant(self);
        }
        Vin { bytes: self.bytes.clone(), text: self.text.clone() }
    }
}

fn ascii_char(byte: u8) -> (c: char)
    requires
        byte < 0x80,
    ensures
        c == byte as char,
{
    byte as char
}

#[derive(Clone, Copy, Debug, Eq, PartialEq, Structural)]
pub enum VinError {
    InvalidLength,
    InvalidCharacter,
}

/// The standards-based source from which an identity was obtained.
#[derive(Clone, Copy, Debug, Eq, Hash, PartialEq, Structural)]
pub enum IdentitySource {
    ObdMode09Pid02,
}

impl IdentitySource {
    pub fn request(self) -> (r: [u8; 2])
        ensures
            r@ == seq![0x09u8, 0x02u8],
    {
        match self {
            IdentitySource::ObdMode09Pid02 => {
                let r = MODE09_PID02_REQUEST;
                assert(r@ =~= seq![0x09u8, 0x02u8]);
                r
            },
        }
    }
}

/// Provenance is explicit so a profiled fallback cannot be confused with the
/// standards-based Mode 09 source.
#[derive(Clone, Copy, Debug, Eq, Hash, PartialEq, Structural)]
pub enum Provenance {
    SaeJ1979Mode09Pid02,
}

/// A validated vehicle identity with its read-only source and provenance.
#[derive(Eq, PartialEq)]
pub struct VehicleIdentity {
    vin: Vin,
    source: IdentitySource,
    provenance: Provenance,
}

/// The model of a vehicle identity.
pub struct VehicleIdentityView {
    pub vin: Seq<u8>,
    pub source: IdentitySource,
    pub provenance: Provenance,
}

impl View for VehicleIdentity {
    type V = VehicleIdentityView;

    closed spec fn view(&self) -> VehicleIdentityView {
        VehicleIdentityView { vin: self.vin@, source: self.source, provenance: self.provenance }
    }
}

impl VehicleIdentity {
    /// A copy of this identity.
    pub fn duplicate(&self) -> (r: Self)
        ensures
            r@ == self@,
    {
        VehicleIdentity { vin: self.vin.duplicate(), source: self.source, provenance: self.provenance }
    }

    pub fn vin(&self) -> (r: &Vin)
        ensures
            r@ == self@.vin,
    {
        &self.vin
    }

    pub fn source(&self) -> (r: IdentitySource)
        ensures
            r == self@.source,
    {
        self.source
    }

    pub fn provenance(&self) -> (r: Provenance)
        ensures
            r == self@.provenance,
    {
        self.provenance
    }
}

#[derive(Clone, Copy, Debug, Eq, PartialEq, Structural)]
pub enum IdentityDecodeError {
    EmptyResponse,
    MalformedResponse,
    InvalidVinLength,
    InvalidVinCharacter,
}

/// The models of the segments.
pub open spec fn segment_views(segments: Seq<Vec<u8>>) -> Seq<Seq<u8>> {
    Seq::new(segments.len(), |i: int| segments[i]@)
}

/// `segment` begins with the application header `49 02 01`.
pub open spec fn has_full_header(segment: Seq<u8>) -> bool {
    segment.len() >= 3 && segment[0] == 0x49 && segment[1] == 0x02 && segment[2] == 0x01
}

/// `segment` begins with `49 02`.
pub open spec fn has_service_header(segment: Seq<u8>) -> bool {
    segment.len() >= 2 && segment[0] == 0x49 && segment[1] == 0x02
}

/// What a segment after the first adds to the VIN bytes, or `None` when
/// it is malformed.
pub open spec fn continuation_payload(segment: Seq<u8>) -> Option<Seq<u8>> {
    if segment.len() == 0 {
        None
    } else if has_full_header(segment) {
        Some(segment.skip(3))
    } else if has_service_header(segment) {
        None
    } else {
        Some(segment)
    }
}

/// The joined payload of continuation segments, or `None` when one of them
/// is malformed.
pub open spec fn continuation_bytes(segments: Seq<Seq<u8>>) -> Option<Seq<u8>>
    decreases segments.len(),
{
    if segments.len() == 0 {
        Some(Seq::empty())
    } else {
        match (continuation_bytes(segments.drop_last()), continuation_payload(segments.last())) {
            (Some(a), Some(b)) => Some(a + b),
            _ => None,
        }
    }
}

/// Decoding of normalized Mode 09 PID 02 segments into VIN bytes.
pub open spec fn mode09_pid02_decode(segments: Seq<Seq<u8>>) -> Result<Seq<u8>, IdentityDecodeError> {
    if segments.len() == 0 {
        Err(IdentityDecodeError::EmptyResponse)
    } else if !has_full_header(segments[0]) {
        Err(IdentityDecodeError::MalformedResponse)
    } else {
        match continuation_bytes(segments.drop_first()) {
            None => Err(IdentityDecodeError::MalformedResponse),
            Some(rest) => {
                let bytes = segments[0].skip(3) + rest;
                if bytes.len() < VIN_LENGTH {
                    Err(IdentityDecodeError::InvalidVinLength)
                } else if exists|i: int| VIN_LENGTH <= i < bytes.len() && #[trigger] bytes[i] != 0 {
                    Err(IdentityDecodeError::InvalidVinLength)
                } else {
                    match vin_check(bytes.take(VIN_LENGTH as int)) {
                        Ok(vin) => Ok(vin),
                        Err(_) => Err(IdentityDecodeError::InvalidVinCharacter),
                    }
                }
            },
        }
    }
}

fn append_bytes(bytes: &mut Vec<u8>, segment: &Vec<u8>, from: usize)
    requires
        from <= segment@.len(),
    ensures
        final(bytes)@ == old(bytes)@ + segment@.skip(from as int),
{
    let mut i = from;
    while i < segment.len()
        invariant
            from <= i <= segment@.len(),
            bytes@ == old(bytes)@ + segment@.subrange(from as int, i as int),
        decreases segment@.len() - i,
    {
        bytes.push(segment[i]);
        assert(segment@.subrange(from as int, i + 1) =~= segment@.subrange(from as int, i as int).push(
            segment@[i as int],
        ));
        i += 1;
    }
    assert(segment@.subrange(from as int, segment@.len() as int) =~= segment@.skip(from as int));
}

/// Decode normalized Mode 09 PID 02 response segments.
///
/// The first segment contains `49 02 01`; subsequent segments contain only
/// their normalized payload. A repeated `49 02 01` prefix is also accepted for
/// adapters that retain the application header on every segment. Transport and
/// ISO-TP framing are outside this function.
pub fn decode_mode09_pid02(segments: &[Vec<u8>]) -> (r: Result<VehicleIdentity, IdentityDecodeError>)
    ensures
        match mode09_pid02_decode(segment_views(segments@)) {
            Ok(vin) => (r matches Ok(identity) && identity@ == (VehicleIdentityView {
                vin,
                source: IdentitySource::ObdMode09Pid02,
                provenance: Provenance::SaeJ1979Mode09Pid02,
            })),
            Err(error) => r == Err::<VehicleIdentity, IdentityDecodeError>(error),
        },
{
    let ghost views = segment_views(segments@);
    if segments.len() == 0 {
        return Err(IdentityDecodeError::EmptyResponse);
    }
    let first = &segments[0];
    assert(first@ == views[0]);
    if first.len() < 3 || first[0] != 0x49 || first[1] != 0x02 || first[2] != 0x01 {
        return Err(IdentityDecodeError::MalformedResponse);
    }
    let mut bytes: Vec<u8> = Vec::new();
    append_bytes(&mut bytes, first, 3);
    let mut index: usize = 1;
    proof {
        let head = (views[0].len() - 3) as int;
        assert(views.drop_first().take(0) =~= Seq::<Seq<u8>>::empty());
        assert(bytes@.skip(head) =~= Seq::<u8>::empty());
        assert(bytes@.take(head) =~= bytes@);
    }
    while index < segments.len()
        invariant
            1 <= index <= segments@.len(),
            views == segment_views(segments@),
            has_full_header(views[0]),
            continuation_bytes(views.drop_first().take(index - 1)) == Some(
                bytes@.skip(views[0].len() - 3),
            ),
            bytes@.len() >= views[0].len() - 3,
            bytes@.take(views[0].len() - 3) == views[0].skip(3),
        decreases segments@.len() - index,
    {
        let segment = &segments[index];
        let ghost prefix = views.drop_first().take(index - 1);
        let ghost next = views.drop_first().take(index as int);
        assert(next.drop_last() =~= prefix);
        assert(next.last() == segment@);
        let ghost old_bytes = bytes@;
        let ghost head = (views[0].len() - 3) as int;
        if segment.len() == 0 {
            proof {
                lemma_continuation_none_extends(views.drop_first(), index as int);
            }
            return Err(IdentityDecodeError::MalformedResponse);
        }
        if segment.len() >= 3 && segment[0] == 0x49 && segment[1] == 0x02 && segment[2] == 0x01 {
            append_bytes(&mut bytes, segment, 3);
        } else if segment.len() >= 2 && segment[0] == 0x49 && segment[1] == 0x02 {
            proof {
                lemma_continuation_none_extends(views.drop_first(), index as int);
            }
            return Err(IdentityDecodeError::MalformedResponse);
        } else {
            append_bytes(&mut bytes, segment, 0);
            assert(segment@.skip(0) =~= segment@);
        }
        assert(bytes@.skip(head) =~= old_bytes.skip(head) + continuation_payload(segment@).unwrap());
        assert(bytes@.take(head) =~= old_bytes.take(head));
        index += 1;
    }
    let ghost rest = views.drop_first();
    assert(rest.take(rest.len() as int) =~= rest);
    let ghost head = (views[0].len() - 3) as int;
    assert(bytes@ =~= views[0].skip(3) + bytes@.skip(head));
    if bytes.len() < VIN_LENGTH {
        return Err(IdentityDecodeError::InvalidVinLength);
    }
    let mut i: usize = VIN_LENGTH;
    while i < bytes.len()
        invariant
            VIN_LENGTH <= i <= bytes@.len(),
            forall|j: int| VIN_LENGTH <= j < i ==> #[trigger] bytes@[j] == 0,
            views == segment_views(segments@),
            views.len() > 0,
            has_full_header(views[0]),
            0 <= head <= bytes@.len(),
            continuation_bytes(views.drop_first()) == Some(bytes@.skip(head)),
            bytes@ == views[0].skip(3) + bytes@.skip(head),
        decreases bytes@.len() - i,
    {
        if bytes[i] != 0 {
            return Err(IdentityDecodeError::InvalidVinLength);
        }
        i += 1;
    }
    let vin_bytes = first_bytes(&bytes, VIN_LENGTH);
    match Vin::from_bytes(vin_bytes.as_slice()) {
        Ok(vin) => Ok(
            VehicleIdentity {
                vin,
                source: IdentitySource::ObdMode09Pid02,
                provenance: Provenance::SaeJ1979Mode09Pid02,
            },
        ),
        Err(_) => Err(IdentityDecodeError::InvalidVinCharacter),
    }
}

fn first_bytes(bytes: &Vec<u8>, count: usize) -> (r: Vec<u8>)
    requires
        count <= bytes@.len(),
    ensures
        r@ == bytes@.take(count as int),
{
    let mut r: Vec<u8> = Vec::new();
    let mut i: usize = 0;
    while i < count
        invariant
            i <= count <= bytes@.len(),
            r@ == bytes@.take(i as int),
        decreases count - i,
    {
        r.push(bytes[i]);
        assert(bytes@.take(i + 1) =~= bytes@.take(i as int).push(bytes@[i as int]));
        i += 1;
    }
    r
}

/// A malformed continuation segment makes every longer run malformed.
proof fn lemma_continuation_none_extends(segments: Seq<Seq<u8>>, index: int)
    requires
        1 <= index <= segments.len(),
        continuation_payload(segments[index - 1]) is None,
    ensures
        continuation_bytes(segments) is None,
    decreases segments.len(),
{
    if segments.len() > index {
        lemma_continuation_none_extends(segments.drop_last(), index);
        assert(segments.drop_last()[index - 1] == segments[index - 1]);
    } else {
        assert(segments.last() == segments[index - 1]);
    }
}


impl VinError {
    /// The message of this error.
    pub fn message(&self) -> (r: &'static str)
        ensures
            match self {
                VinError::InvalidLength => r@ == "VIN must contain exactly 17 characters"@,
                VinError::InvalidCharacter => r@ == "VIN contains an invalid character"@,
            },
    {
        match self {
            VinError::InvalidLength => "VIN must contain exactly 17 characters",
            VinError::InvalidCharacter => "VIN contains an invalid character",
        }
    }
}

impl IdentityDecodeError {
    /// The message of this error.
    pub fn message(&self) -> (r: &'static str)
        ensures
            match self {
                IdentityDecodeError::EmptyResponse => r@ == "Mode 09 PID 02 response is empty"@,
                IdentityDecodeError::MalformedResponse => r@ == "malformed Mode 09 PID 02 response"@,
                IdentityDecodeError::InvalidVinLength => r@ == "Mode 09 PID 02 response contains an invalid VIN length"@,
                IdentityDecodeError::InvalidVinCharacter => r@ == "Mode 09 PID 02 response contains an invalid VIN character"@,
            },
    {
        match self {
            IdentityDecodeError::EmptyResponse => "Mode 09 PID 02 response is empty",
            IdentityDecodeError::MalformedResponse => "malformed Mode 09 PID 02 response",
            IdentityDecodeError::InvalidVinLength => "Mode 09 PID 02 response contains an invalid VIN length",
            IdentityDecodeError::InvalidVinCharacter => "Mode 09 PID 02 response contains an invalid VIN character",
        }
    }
}



/// The VIN alphabet: the ten digits and the capital letters other than `I`
/// and `O`.
pub open spec fn in_vin_alphabet(byte: u8) -> bool {
    ('0' as u8 <= byte && byte <= '9' as u8) || ('A' as u8 <= byte && byte <= 'Z' as u8 && byte != 'I' as u8
        && byte != 'O' as u8)
}

/// Seventeen bytes are a VIN exactly when every one is a digit or a capital
/// letter other than `I` and `O`.
pub proof fn law_vin_accepts_exactly_its_alphabet(bytes: Seq<u8>)
    requires
        bytes.len() == VIN_LENGTH,
    ensures
        (vin_check(bytes) is Ok) <==> (forall|i: int| 0 <= i < bytes.len() ==> #[trigger] in_vin_alphabet(bytes[i])),
{
    assert forall|b: u8| is_vin_byte(b) <==> in_vin_alphabet(b) by {}
    if vin_check(bytes) is Ok {
        assert forall|i: int| 0 <= i < bytes.len() implies #[trigger] in_vin_alphabet(bytes[i]) by {
            assert(is_vin_byte(bytes[i]));
        }
    } else {
        let i = choose|i: int| 0 <= i < bytes.len() && !is_vin_byte(#[trigger] bytes[i]);
        assert(!in_vin_alphabet(bytes[i]));
    }
}

} // verus!
