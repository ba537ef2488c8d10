use obdentic::identity::{
    decode_mode09_pid02, IdentityDecodeError, IdentitySource, Provenance, Vin, VinError,
};

const VIN: &str = "WVWZZZ1JZXW000001";

fn response_segments() -> Vec<Vec<u8>> {
    VIN.as_bytes()
        .chunks(6)
        .enumerate()
        .map(|(index, chunk)| {
            if index == 0 {
                [&[0x49, 0x02, 0x01][..], chunk].concat()
            } else {
                chunk.to_vec()
            }
        })
        .collect()
}

#[test]
fn decodes_valid_segmented_mode09_pid02_response() {
    let identity = decode_mode09_pid02(&response_segments()).unwrap();

    assert_eq!(identity.vin().as_str(), VIN);
    assert_eq!(identity.source(), IdentitySource::ObdMode09Pid02);
    assert_eq!(identity.source().request(), [0x09, 0x02]);
    assert_eq!(identity.provenance(), Provenance::SaeJ1979Mode09Pid02);
}

#[test]
fn accepts_a_single_normalized_response_and_zero_padding() {
    let mut response = vec![0x49, 0x02, 0x01];
    response.extend_from_slice(VIN.as_bytes());
    response.extend_from_slice(&[0, 0]);

    assert_eq!(
        decode_mode09_pid02(&[response]).unwrap().vin().as_str(),
        VIN
    );
}

#[test]
fn accepts_segments_that_repeat_the_application_header() {
    let segments = VIN
        .as_bytes()
        .chunks(6)
        .map(|chunk| [&[0x49, 0x02, 0x01][..], chunk].concat())
        .collect::<Vec<_>>();

    assert_eq!(decode_mode09_pid02(&segments).unwrap().vin().as_str(), VIN);
}

#[test]
fn rejects_invalid_length_and_characters() {
    let mut short = vec![0x49, 0x02, 0x01];
    short.extend_from_slice(b"WVWZZZ1JZXW00000");
    assert_eq!(
        decode_mode09_pid02(&[short]).err(),
        Some(IdentityDecodeError::InvalidVinLength)
    );

    let mut invalid = vec![0x49, 0x02, 0x01];
    invalid.extend_from_slice(b"WVWZZZ1IZXW000001");
    assert_eq!(
        decode_mode09_pid02(&[invalid]).err(),
        Some(IdentityDecodeError::InvalidVinCharacter)
    );
}

#[test]
fn rejects_malformed_headers_segments_and_non_padding_bytes() {
    assert_eq!(
        decode_mode09_pid02(&[vec![0x49, 0x01, 0x01]]).err(),
        Some(IdentityDecodeError::MalformedResponse)
    );
    assert_eq!(
        decode_mode09_pid02(&[vec![0x49, 0x02, 0x01], vec![0x49, 0x02, 0x02],]).err(),
        Some(IdentityDecodeError::MalformedResponse)
    );

    let mut extra = vec![0x49, 0x02, 0x01];
    extra.extend_from_slice(VIN.as_bytes());
    extra.push(b'X');
    assert_eq!(
        decode_mode09_pid02(&[extra]).err(),
        Some(IdentityDecodeError::InvalidVinLength)
    );
}

#[test]
fn empty_responses_and_empty_segments_are_refused() {
    let none: Vec<Vec<u8>> = Vec::new();
    assert_eq!(
        decode_mode09_pid02(&none).err(),
        Some(IdentityDecodeError::EmptyResponse)
    );
    let mut first = vec![0x49, 0x02, 0x01];
    first.extend_from_slice(&VIN.as_bytes()[..6]);
    assert_eq!(
        decode_mode09_pid02(&[first, Vec::new()]).err(),
        Some(IdentityDecodeError::MalformedResponse)
    );
}

#[test]
fn vin_parsing_checks_length_and_alphabet() {
    assert_eq!(Vin::parse(VIN).unwrap().as_str(), VIN);
    assert_eq!(Vin::from_bytes(VIN.as_bytes()).unwrap().as_str(), VIN);
    assert_eq!(Vin::parse("WVWZZZ1JZXW00000").err(), Some(VinError::InvalidLength));
    assert_eq!(Vin::parse("WVWZZZ1OZXW000001").err(), Some(VinError::InvalidCharacter));
    assert_eq!(Vin::parse("wvwzzz1jzxw000001").err(), Some(VinError::InvalidCharacter));
    assert_eq!(Vin::parse("WVWZZZ1JZXW00000é").err(), Some(VinError::InvalidLength));
}

#[test]
fn vin_debug_and_decode_errors_do_not_include_identity_bytes() {
    let mut invalid = vec![0x49, 0x02, 0x01];
    invalid.extend_from_slice(b"WVWZZZ1IZXW000001");
    match decode_mode09_pid02(&[invalid]) {
        Ok(_) => panic!("an invalid VIN was accepted"),
        Err(error) => assert!(!error.message().contains("WVWZZZ1IZXW000001")),
    }
}
