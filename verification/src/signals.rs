//! The closed catalog of standard OBD-II Mode 01 signals this library reads.
//!
//! A read can only be prepared for a semantic of the catalog; there is no way
//! to build a request for any other service or parameter.

use vstd::prelude::*;

use crate::text::str_eq;

verus! {

/// The profile of every catalog signal.
pub const GENERIC_PROFILE: &'static str = "obd2-v1";

/// The Mode 01 service byte of every catalog request.
pub const MODE01: u8 = 0x01;

/// Number of signals in the catalog.
pub const CATALOG_SIZE: usize = 22;

/// One entry of the catalog, as a model.
pub struct CatalogEntry {
    pub semantic: Seq<char>,
    pub pid: u8,
    pub data_len: u8,
    pub unit: Seq<char>,
}

/// The catalog, entry by entry (SAE J1979 Mode 01 parameters).
pub open spec fn catalog_entry(index: int) -> CatalogEntry {
    if index == 0 {
        CatalogEntry { semantic: "engine.rpm"@, pid: 0x0C, data_len: 2, unit: "rpm"@ }
    } else if index == 1 {
        CatalogEntry { semantic: "vehicle.speed"@, pid: 0x0D, data_len: 1, unit: "km/h"@ }
    } else if index == 2 {
        CatalogEntry { semantic: "engine.load"@, pid: 0x04, data_len: 1, unit: "%"@ }
    } else if index == 3 {
        CatalogEntry { semantic: "engine.coolant_temperature"@, pid: 0x05, data_len: 1, unit: "°C"@ }
    } else if index == 4 {
        CatalogEntry { semantic: "engine.intake_manifold_pressure"@, pid: 0x0B, data_len: 1, unit: "kPa"@ }
    } else if index == 5 {
        CatalogEntry { semantic: "engine.intake_air_temperature"@, pid: 0x0F, data_len: 1, unit: "°C"@ }
    } else if index == 6 {
        CatalogEntry { semantic: "engine.maf"@, pid: 0x10, data_len: 2, unit: "g/s"@ }
    } else if index == 7 {
        CatalogEntry { semantic: "engine.throttle_position"@, pid: 0x11, data_len: 1, unit: "%"@ }
    } else if index == 8 {
        CatalogEntry { semantic: "engine.runtime"@, pid: 0x1F, data_len: 2, unit: "s"@ }
    } else if index == 9 {
        CatalogEntry { semantic: "vehicle.distance_with_mil_on"@, pid: 0x21, data_len: 2, unit: "km"@ }
    } else if index == 10 {
        CatalogEntry { semantic: "engine.fuel_rail_gauge_pressure"@, pid: 0x23, data_len: 2, unit: "kPa"@ }
    } else if index == 11 {
        CatalogEntry { semantic: "engine.egr.commanded"@, pid: 0x2C, data_len: 1, unit: "%"@ }
    } else if index == 12 {
        CatalogEntry { semantic: "engine.egr.error"@, pid: 0x2D, data_len: 1, unit: "%"@ }
    } else if index == 13 {
        CatalogEntry { semantic: "vehicle.warmups_since_dtc_clear"@, pid: 0x30, data_len: 1, unit: "count"@ }
    } else if index == 14 {
        CatalogEntry { semantic: "vehicle.distance_since_dtc_clear"@, pid: 0x31, data_len: 2, unit: "km"@ }
    } else if index == 15 {
        CatalogEntry { semantic: "engine.barometric_pressure"@, pid: 0x33, data_len: 1, unit: "kPa"@ }
    } else if index == 16 {
        CatalogEntry { semantic: "engine.control_module_voltage"@, pid: 0x42, data_len: 2, unit: "V"@ }
    } else if index == 17 {
        CatalogEntry { semantic: "engine.relative_throttle"@, pid: 0x45, data_len: 1, unit: "%"@ }
    } else if index == 18 {
        CatalogEntry { semantic: "vehicle.ambient_air_temperature"@, pid: 0x46, data_len: 1, unit: "°C"@ }
    } else if index == 19 {
        CatalogEntry { semantic: "vehicle.accelerator_pedal_d"@, pid: 0x49, data_len: 1, unit: "%"@ }
    } else if index == 20 {
        CatalogEntry { semantic: "vehicle.accelerator_pedal_e"@, pid: 0x4A, data_len: 1, unit: "%"@ }
    } else {
        CatalogEntry { semantic: "engine.throttle_actuator.commanded"@, pid: 0x4C, data_len: 1, unit: "%"@ }
    }
}

/// `semantic` names entry `index` of the catalog.
pub open spec fn names_entry(semantic: Seq<char>, index: int) -> bool {
    0 <= index < CATALOG_SIZE && catalog_entry(index).semantic == semantic
}

/// The first catalog entry at `k` or after that `semantic` names.
pub open spec fn first_entry_from(semantic: Seq<char>, k: int) -> int
    decreases CATALOG_SIZE - k,
{
    if k < 0 || k >= CATALOG_SIZE {
        CATALOG_SIZE as int
    } else if catalog_entry(k).semantic == semantic {
        k
    } else {
        first_entry_from(semantic, k + 1)
    }
}

/// The catalog entry `semantic` names first.
pub open spec fn catalog_index(semantic: Seq<char>) -> int {
    first_entry_from(semantic, 0)
}

proof fn lemma_first_entry(semantic: Seq<char>, k: int, index: int)
    requires
        0 <= k <= index < CATALOG_SIZE,
        names_entry(semantic, index),
        forall|j: int| k <= j < index ==> !#[trigger] names_entry(semantic, j),
    ensures
        first_entry_from(semantic, k) == index,
    decreases index - k,
{
    if k < index {
        assert(!names_entry(semantic, k));
        lemma_first_entry(semantic, k + 1, index);
    }
}

/// `semantic` is a catalog semantic.
pub open spec fn is_catalog_semantic(semantic: Seq<char>) -> bool {
    exists|index: int| #[trigger] names_entry(semantic, index)
}

/// Static description of a catalog signal.
#[derive(Clone, Copy, Debug, Eq, Hash, PartialEq)]
pub struct SignalMetadata {
    pub semantic: &'static str,
    pub profile: &'static str,
    pub mode: u8,
    pub pid: u8,
    pub data_len: u8,
    pub unit: &'static str,
}

/// `metadata` describes catalog entry `index`.
pub open spec fn describes(metadata: SignalMetadata, index: int) -> bool {
    &&& metadata.semantic@ == catalog_entry(index).semantic
    &&& metadata.profile@ == GENERIC_PROFILE@
    &&& metadata.mode == MODE01
    &&& metadata.pid == catalog_entry(index).pid
    &&& metadata.data_len == catalog_entry(index).data_len
    &&& metadata.unit@ == catalog_entry(index).unit
}

/// The description of catalog entry `index`.
pub fn signal_metadata(index: usize) -> (r: SignalMetadata)
    requires
        index < CATALOG_SIZE,
    ensures
        describes(r, index as int),
{
    let (semantic, pid, data_len, unit): (&'static str, u8, u8, &'static str) = match index {
        0 => ("engine.rpm", 0x0C, 2, "rpm"),
        1 => ("vehicle.speed", 0x0D, 1, "km/h"),
        2 => ("engine.load", 0x04, 1, "%"),
        3 => ("engine.coolant_temperature", 0x05, 1, "°C"),
        4 => ("engine.intake_manifold_pressure", 0x0B, 1, "kPa"),
        5 => ("engine.intake_air_temperature", 0x0F, 1, "°C"),
        6 => ("engine.maf", 0x10, 2, "g/s"),
        7 => ("engine.throttle_position", 0x11, 1, "%"),
        8 => ("engine.runtime", 0x1F, 2, "s"),
        9 => ("vehicle.distance_with_mil_on", 0x21, 2, "km"),
        10 => ("engine.fuel_rail_gauge_pressure", 0x23, 2, "kPa"),
        11 => ("engine.egr.commanded", 0x2C, 1, "%"),
        12 => ("engine.egr.error", 0x2D, 1, "%"),
        13 => ("vehicle.warmups_since_dtc_clear", 0x30, 1, "count"),
        14 => ("vehicle.distance_since_dtc_clear", 0x31, 2, "km"),
        15 => ("engine.barometric_pressure", 0x33, 1, "kPa"),
        16 => ("engine.control_module_voltage", 0x42, 2, "V"),
        17 => ("engine.relative_throttle", 0x45, 1, "%"),
        18 => ("vehicle.ambient_air_temperature", 0x46, 1, "°C"),
        19 => ("vehicle.accelerator_pedal_d", 0x49, 1, "%"),
        20 => ("vehicle.accelerator_pedal_e", 0x4A, 1, "%"),
        _ => ("engine.throttle_actuator.commanded", 0x4C, 1, "%"),
    };
    SignalMetadata { semantic, profile: GENERIC_PROFILE, mode: MODE01, pid, data_len, unit }
}

/// Every signal of the catalog, in catalog order.
pub fn supported_signals() -> (r: Vec<SignalMetadata>)
    ensures
        r@.len() == CATALOG_SIZE,
        forall|i: int| 0 <= i < CATALOG_SIZE ==> describes(#[trigger] r@[i], i),
{
    let mut r: Vec<SignalMetadata> = Vec::new();
    let mut index: usize = 0;
    while index < CATALOG_SIZE
        invariant
            index <= CATALOG_SIZE,
            r@.len() == index,
            forall|i: int| 0 <= i < index ==> describes(#[trigger] r@[i], i),
        decreases CATALOG_SIZE - index,
    {
        r.push(signal_metadata(index));
        index += 1;
    }
    r
}

/// A prepared read of one catalog signal.
#[derive(Clone, Copy, Debug, Eq, Hash, PartialEq)]
pub struct ReadRequest {
    metadata: SignalMetadata,
}

impl ReadRequest {
    pub closed spec fn spec_metadata(self) -> SignalMetadata {
        self.metadata
    }

    pub fn metadata(&self) -> (r: SignalMetadata)
        ensures
            r == self.spec_metadata(),
    {
        self.metadata
    }

    pub fn semantic(&self) -> (r: &'static str)
        ensures
            r@ == self.spec_metadata().semantic@,
    {
        self.metadata.semantic
    }

    pub fn pid(&self) -> (r: u8)
        ensures
            r == self.spec_metadata().pid,
    {
        self.metadata.pid
    }

    /// The request bytes: the service followed by the parameter identifier.
    pub fn bytes(&self) -> (r: [u8; 2])
        ensures
            r@ == seq![self.spec_metadata().mode, self.spec_metadata().pid],
    {
        let r = [self.metadata.mode, self.metadata.pid];
        assert(r@ =~= seq![self.metadata.mode, self.metadata.pid]);
        r
    }
}

/// Why a read could not be prepared.
#[derive(Clone, Copy, Debug, Eq, Hash, PartialEq, Structural)]
pub enum ReadError {
    UnsupportedSemantic,
}

/// Prepare the read of a catalog semantic. Anything else, such as a DTC
/// clear or an arbitrary request, is refused.
pub fn prepare_read(semantic: &str) -> (r: Result<ReadRequest, ReadError>)
    ensures
        is_catalog_semantic(semantic@) <==> r is Ok,
        r matches Ok(request) ==> exists|index: int|
            #[trigger] names_entry(semantic@, index) && describes(request.spec_metadata(), index),
        r matches Ok(request) ==> names_entry(semantic@, catalog_index(semantic@)) && describes(
            request.spec_metadata(),
            catalog_index(semantic@),
        ),
        r is Err ==> r == Err::<ReadRequest, ReadError>(ReadError::UnsupportedSemantic),
{
    let mut index: usize = 0;
    while index < CATALOG_SIZE
        invariant
            index <= CATALOG_SIZE,
            forall|i: int| 0 <= i < index ==> !#[trigger] names_entry(semantic@, i),
        decreases CATALOG_SIZE - index,
    {
        let metadata = signal_metadata(index);
        if str_eq(semantic, metadata.semantic) {
            assert(names_entry(semantic@, index as int));
            proof {
                lemma_first_entry(semantic@, 0, index as int);
            }
            return Ok(ReadRequest { metadata });
        }
        index += 1;
    }
    Err(ReadError::UnsupportedSemantic)
}


#[verifier::external_type_specification]
#[verifier::external_body]
pub struct ExSystemTime(std::time::SystemTime);

#[verifier::external_type_specification]
#[verifier::external_body]
pub struct ExSystemTimeError(std::time::SystemTimeError);

/// `SystemTime::now`: the system clock's reading. Nothing is stated of it.
#[verifier::external_body]
fn clock_reading() -> std::time::SystemTime {
    std::time::SystemTime::now()
}

/// `SystemTime::duration_since` measured from `UNIX_EPOCH`: the time since
/// the epoch, or an error for a reading before it. Nothing is stated of
/// either, since both come from the clock.
#[verifier::external_body]
fn since_epoch(time: std::time::SystemTime) -> std::result::Result<
    std::time::Duration,
    std::time::SystemTimeError,
> {
    time.duration_since(std::time::UNIX_EPOCH)
}

/// `Duration::as_millis`: the whole milliseconds of a duration. The
/// duration is opaque here, so nothing is stated of the number.
#[verifier::external_body]
fn whole_millis(duration: std::time::Duration) -> u128 {
    duration.as_millis()
}

/// Milliseconds since the Unix epoch on the system clock, or zero when the
/// clock reads before the epoch.
pub fn now_ms() -> u128 {
    match since_epoch(clock_reading()) {
        Ok(duration) => whole_millis(duration),
        Err(_) => 0,
    }
}

/// A positive Mode 01 response answers `request` exactly: `41`, the PID,
/// then the signal's data bytes.
pub open spec fn answers(request: SignalMetadata, response: Seq<u8>) -> bool {
    &&& response.len() == 2 + request.data_len
    &&& response[0] == 0x41
    &&& response[1] == request.pid
}

/// One completed read: the prepared request, where it came from, the raw
/// response and when it completed.
#[derive(Clone, Debug, Eq, PartialEq)]
pub struct Transaction {
    request: ReadRequest,
    source: String,
    response: Vec<u8>,
    timestamp_ms: u128,
}

/// The model of a transaction.
pub struct TransactionView {
    pub metadata: SignalMetadata,
    pub source: Seq<char>,
    pub response: Seq<u8>,
    pub timestamp_ms: u128,
}

impl View for Transaction {
    type V = TransactionView;

    closed spec fn view(&self) -> TransactionView {
        TransactionView {
            metadata: self.request.spec_metadata(),
            source: self.source@,
            response: self.response@,
            timestamp_ms: self.timestamp_ms,
        }
    }
}

impl ReadRequest {
    /// Complete the read with the response it received. A response that does
    /// not answer this request is refused. The transaction is stamped with
    /// the system clock.
    pub fn complete(self, source: &str, response: Vec<u8>) -> (r: Result<Transaction, String>)
        ensures
            answers(self.spec_metadata(), response@) <==> r is Ok,
            r matches Err(message) ==> message@ == "response does not answer the prepared read"@,
            r matches Ok(t) ==> t@.metadata == self.spec_metadata() && t@.source == source@
                && t@.response == response@,
    {
        let expected = 2 + self.metadata.data_len as usize;
        if response.len() != expected || response[0] != 0x41 || response[1] != self.metadata.pid {
            return Err(crate::text::owned("response does not answer the prepared read"));
        }
        Ok(Transaction { request: self, source: crate::text::owned(source), response, timestamp_ms: now_ms() })
    }
}

impl Transaction {
    /// The same transaction stamped with another completion time.
    pub fn with_timestamp_ms(self, timestamp_ms: u128) -> (r: Self)
        ensures
            r@ == (TransactionView { timestamp_ms, ..self@ }),
    {
        Transaction { timestamp_ms, ..self }
    }

    pub fn timestamp_ms(&self) -> (r: u128)
        ensures
            r == self@.timestamp_ms,
    {
        self.timestamp_ms
    }

    pub fn source(&self) -> (r: &str)
        ensures
            r@ == self@.source,
    {
        self.source.as_str()
    }

    pub fn semantic(&self) -> (r: &'static str)
        ensures
            r@ == self@.metadata.semantic@,
    {
        self.request.semantic()
    }

    pub fn profile(&self) -> (r: &'static str)
        ensures
            r@ == self@.metadata.profile@,
    {
        self.request.metadata.profile
    }

    pub fn unit(&self) -> (r: &'static str)
        ensures
            r@ == self@.metadata.unit@,
    {
        self.request.metadata.unit
    }

    /// The request bytes of the read.
    pub fn request(&self) -> (r: [u8; 2])
        ensures
            r@ == seq![self@.metadata.mode, self@.metadata.pid],
    {
        self.request.bytes()
    }

    pub fn response(&self) -> (r: &[u8])
        ensures
            r@ == self@.response,
    {
        self.response.as_slice()
    }
}

} // verus!
