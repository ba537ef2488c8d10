//! The pure parts of the Bluetooth adapter backend: notification framing and
//! optional adapter traffic logging.

use vstd::prelude::*;

use crate::text::{concat, owned};

verus! {

/// The largest adapter response accepted, in bytes.
pub const MAX_RESPONSE: usize = 8 * 1024;

/// The ELM prompt that ends a response.
pub const PROMPT: u8 = 0x3e;

/// An adapter found by a scan.
#[derive(Debug, PartialEq, Eq)]
pub struct AdapterCandidate {
    pub id: String,
    pub name: String,
    pub rssi: Option<i16>,
}

/// Append one notification fragment to the response being framed. The
/// fragment is always appended; the response is refused once it exceeds
/// `MAX_RESPONSE` bytes, and is complete once it holds the prompt.
pub fn append_notification(response: &mut Vec<u8>, fragment: &[u8]) -> (r: Result<bool, String>)
    requires
        old(response)@.len() + fragment@.len() <= usize::MAX,
    ensures
        final(response)@ == old(response)@ + fragment@,
        final(response)@.len() > MAX_RESPONSE ==> (r matches Err(message) && message@
            == "Carly response exceeded 8 KiB"@),
        final(response)@.len() <= MAX_RESPONSE ==> r == Ok::<bool, String>(
            final(response)@.contains(PROMPT),
        ),
{
    let ghost start = response@;
    let mut i: usize = 0;
    while i < fragment.len()
        invariant
            i <= fragment@.len(),
            start == old(response)@,
            response@ == start + fragment@.take(i as int),
        decreases fragment@.len() - i,
    {
        response.push(fragment[i]);
        assert(fragment@.take(i + 1) =~= fragment@.take(i as int).push(fragment@[i as int]));
        i += 1;
    }
    assert(fragment@.take(fragment@.len() as int) =~= fragment@);
    if response.len() > MAX_RESPONSE {
        return Err(owned("Carly response exceeded 8 KiB"));
    }
    let mut j: usize = 0;
    while j < response.len()
        invariant
            j <= response@.len(),
            response@ == start + fragment@,
            start == old(response)@,
            response@.len() <= MAX_RESPONSE,
            forall|k: int| 0 <= k < j ==> response@[k] != PROMPT,
        decreases response@.len() - j,
    {
        if response[j] == PROMPT {
            assert(response@[j as int] == PROMPT);
            return Ok(true);
        }
        j += 1;
    }
    Ok(false)
}

/// The log line for adapter traffic, when adapter logging is on.
pub fn adapter_io_line(show_adapter_io: bool, direction: &str, value: &str) -> (r: Option<String>)
    ensures
        !show_adapter_io ==> r is None,
        show_adapter_io ==> (r matches Some(line) && line@ == "adapter "@ + direction@ + "  "@
            + value@),
{
    if !show_adapter_io {
        return None;
    }
    let head = concat("adapter ", direction);
    let middle = concat(head.as_str(), "  ");
    Some(concat(middle.as_str(), value))
}

} // verus!
