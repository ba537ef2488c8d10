use obdentic::elm::SupportDiscovery;
use obdentic::functional_discovery::{
    known_functional_requests, CapabilityStatus, DiscoveryError, DiscoveryStatus,
    FunctionalPageObservation, FunctionalResponderDiscovery,
};
use obdentic::topology::{
    AddressingContext, Confidence, Protocol, ProtocolContext, Provenance, ResponderIdentity,
};

fn provenance() -> Provenance {
    Provenance::new("fake transport", Confidence::High).unwrap()
}

fn context() -> ProtocolContext {
    ProtocolContext::new(Protocol::Obd2, AddressingContext::Functional)
}

fn responder(name: &str) -> ResponderIdentity {
    ResponderIdentity::opaque(context(), name)
}

fn page(page: u8, responder_name: &str, continuation: bool) -> FunctionalPageObservation {
    FunctionalPageObservation::new(
        [0x01, page],
        responder(responder_name),
        [0x41, page, 0, 0, 0, u8::from(continuation)].into(),
        provenance(),
    )
    .unwrap()
}

fn bitmap_page(page: u8, responder_name: &str, bitmap: u32) -> FunctionalPageObservation {
    FunctionalPageObservation::new(
        [0x01, page],
        responder(responder_name),
        [[0x41, page].as_slice(), bitmap.to_be_bytes().as_slice()].concat(),
        provenance(),
    )
    .unwrap()
}

fn pid_bit(pid: u8) -> u32 {
    1 << (31 - ((pid - 1) & 0x1f))
}

#[test]
fn discovers_one_responder_on_0100_without_a_role() {
    let discovery = FunctionalResponderDiscovery::new(vec![page(0, "7E8", false)]);
    let responder = responder("7E8");

    assert_eq!(
        discovery.status(&responder, 0),
        Ok(DiscoveryStatus::Observed)
    );
    assert_eq!(discovery.topology().nodes().len(), 1);
    assert!(discovery.topology().nodes()[0].role().is_none());
}

#[test]
fn preserves_two_responders_with_different_bitmaps() {
    let discovery =
        FunctionalResponderDiscovery::new(vec![page(0, "7E8", true), page(0, "7E9", false)]);

    assert_eq!(discovery.responders().len(), 2);
    assert_eq!(discovery.next_requests(), vec![[0x01, 0x20]]);
}

#[test]
fn continuation_is_evaluated_independently_per_responder() {
    let discovery = FunctionalResponderDiscovery::new(vec![
        page(0, "7E8", true),
        page(0, "7E9", false),
        page(0x20, "7E8", true),
    ]);
    assert_eq!(
        discovery.status(&responder("7E8"), 0x20),
        Ok(DiscoveryStatus::Observed)
    );
    assert_eq!(
        discovery.status(&responder("7E9"), 0x20),
        Ok(DiscoveryStatus::Unsupported)
    );
    assert_eq!(discovery.next_requests(), vec![[0x01, 0x40]]);
}

#[test]
fn missing_later_responder_is_not_observed_not_transport_failure() {
    let discovery = FunctionalResponderDiscovery::new(vec![page(0, "7E8", true)]);

    assert_eq!(
        discovery.status(&responder("7E8"), 0x20),
        Ok(DiscoveryStatus::NotObserved)
    );
}

#[test]
fn duplicate_same_responder_payload_is_preserved_without_conflict() {
    let observation = page(0, "7E8", false);
    let discovery = FunctionalResponderDiscovery::new(vec![observation.duplicate(), observation]);

    assert_eq!(discovery.observations().len(), 2);
    assert_eq!(
        discovery.status(&responder("7E8"), 0),
        Ok(DiscoveryStatus::Observed)
    );
}

#[test]
fn malformed_responder_metadata_is_an_explicit_error() {
    assert_eq!(
        FunctionalPageObservation::from_responder_metadata(
            [0x01, 0],
            Some("  "),
            vec![0x41, 0, 0, 0, 0, 0],
            context(),
            provenance(),
        ),
        Err(DiscoveryError::MalformedResponderMetadata)
    );
}

#[test]
fn rejects_requests_outside_the_known_functional_allowlist() {
    assert_eq!(
        FunctionalPageObservation::new(
            [0x01, 0x01],
            responder("7E8"),
            vec![0x41, 0x01, 0, 0, 0, 0],
            provenance(),
        ),
        Err(DiscoveryError::RequestNotAllowlisted([0x01, 0x01]))
    );
    assert!(known_functional_requests()
        .iter()
        .all(|request| request[0] == 0x01));
}

#[test]
fn rejects_malformed_page_payload() {
    assert!(matches!(
        FunctionalPageObservation::new(
            [0x01, 0],
            responder("7E8"),
            vec![0x41, 0],
            provenance(),
        ),
        Err(DiscoveryError::MalformedPayload { .. })
    ));
}

#[test]
fn unknown_and_unqueried_pages_stay_unknown() {
    let discovery = FunctionalResponderDiscovery::new(vec![page(0, "7E8", false)]);

    assert_eq!(
        discovery.status(&responder("7E8"), 0x20),
        Ok(DiscoveryStatus::Unsupported)
    );
    assert_eq!(
        discovery.status(&responder("7E8"), 0x40),
        Ok(DiscoveryStatus::Unknown)
    );
}

#[test]
fn arrival_order_does_not_change_serializable_observations() {
    let first = page(0, "7E8", false);
    let second = page(0x20, "7E9", false);
    assert_eq!(
        FunctionalResponderDiscovery::new(vec![first.duplicate(), second.duplicate()]),
        FunctionalResponderDiscovery::new(vec![second, first])
    );
}

#[test]
fn support_discovery_without_identity_remains_unknown() {
    let discovery = FunctionalResponderDiscovery::from_support_discovery(&[SupportDiscovery {
        request: [0x01, 0],
        responder: None,
        response: [0x41, 0, 0, 0, 0, 0],
    }])
    .unwrap();
    assert!(discovery.responders()[0].value().is_none());
}

#[test]
fn keeps_mode01_capabilities_independent_per_responder() {
    let discovery = FunctionalResponderDiscovery::new(vec![
        bitmap_page(0, "7E8", pid_bit(0x0c)),
        bitmap_page(0, "7E9", pid_bit(0x0d)),
    ]);
    let capabilities = discovery.capabilities();

    assert_eq!(capabilities.len(), 2);
    assert_eq!(capabilities[0].responder().value(), Some("7E8"));
    assert_eq!(capabilities[1].responder().value(), Some("7E9"));
    assert_eq!(
        capabilities[0].status("engine.rpm"),
        Ok(CapabilityStatus::Supported)
    );
    assert_eq!(
        capabilities[0].status("vehicle.speed"),
        Ok(CapabilityStatus::Unsupported)
    );
    assert_eq!(
        capabilities[1].status("engine.rpm"),
        Ok(CapabilityStatus::Unsupported)
    );
    assert_eq!(
        capabilities[1].status("vehicle.speed"),
        Ok(CapabilityStatus::Supported)
    );
    assert_eq!(
        discovery.capability(&responder("7E8"), "engine.rpm"),
        Ok(CapabilityStatus::Supported)
    );
}

#[test]
fn distinguishes_unknown_from_an_unadvertised_or_observed_pid() {
    let discovery = FunctionalResponderDiscovery::new(vec![bitmap_page(0, "7E8", pid_bit(0x0c))]);
    let capability = &discovery.capabilities()[0];

    assert_eq!(
        capability.status("engine.rpm"),
        Ok(CapabilityStatus::Supported)
    );
    assert_eq!(
        capability.status("vehicle.speed"),
        Ok(CapabilityStatus::Unsupported)
    );
    assert_eq!(
        capability.status("engine.control_module_voltage"),
        Ok(CapabilityStatus::Unknown)
    );
    assert_eq!(
        capability.status("future.signal"),
        Err(DiscoveryError::UnsupportedSemantic("future.signal".into()))
    );
}

#[test]
fn continuation_capabilities_stay_scoped_to_the_responder() {
    let discovery = FunctionalResponderDiscovery::new(vec![
        page(0, "7E8", true),
        page(0, "7E9", false),
        bitmap_page(0x20, "7E8", pid_bit(0x2c)),
    ]);

    assert_eq!(
        discovery.capability(&responder("7E8"), "engine.egr.commanded"),
        Ok(CapabilityStatus::Supported)
    );
    assert_eq!(
        discovery.capability(&responder("7E9"), "engine.egr.commanded"),
        Ok(CapabilityStatus::Unsupported)
    );
    assert_eq!(
        discovery.capabilities()[0].status("engine.egr.commanded"),
        Ok(CapabilityStatus::Supported)
    );
    assert_eq!(
        discovery.capabilities()[1].status("engine.egr.commanded"),
        Ok(CapabilityStatus::Unsupported)
    );
}

#[test]
fn capability_order_and_page_evidence_are_deterministic() {
    let first = bitmap_page(0, "7E9", pid_bit(0x0d));
    let second = bitmap_page(0x20, "7E9", pid_bit(0x21));
    let left = FunctionalResponderDiscovery::new(vec![first.duplicate(), second.duplicate()]);
    let right = FunctionalResponderDiscovery::new(vec![second, first]);

    assert_eq!(left.capabilities(), right.capabilities());
    assert_eq!(left.capabilities()[0].mode01_pages().len(), 2);
    assert_eq!(
        left.capabilities()[0].mode01_pages()[0].request(),
        [0x01, 0]
    );
    assert_eq!(
        left.capabilities()[0]
            .provenances()
            .into_iter()
            .map(Provenance::source)
            .collect::<Vec<_>>(),
        ["fake transport", "fake transport"]
    );
}

#[test]
fn conflicting_same_page_evidence_is_unknown() {
    let discovery = FunctionalResponderDiscovery::new(vec![
        bitmap_page(0, "7E8", pid_bit(0x0c)),
        bitmap_page(0, "7E8", 0),
    ]);

    assert_eq!(
        discovery.capabilities()[0].status("engine.rpm"),
        Ok(CapabilityStatus::Unknown)
    );
}

#[test]
fn known_functional_requests_cover_the_catalog_pages() {
    assert_eq!(
        known_functional_requests(),
        vec![[0x01, 0x00], [0x01, 0x20], [0x01, 0x40]]
    );
}

#[test]
fn discovery_errors_name_the_request() {
    assert_eq!(
        DiscoveryError::RequestNotAllowlisted([0x01, 0x01]).message(),
        "functional discovery request is not allowlisted: [01, 01]"
    );
    assert_eq!(
        DiscoveryError::UnsupportedSemantic("future.signal".into()).message(),
        "functional discovery semantic is not allowlisted: future.signal"
    );
}
