//! Checks on values that leave the program in a request.
use vstd::prelude::*;
use vstd::string::*;

verus! {

pub const CONNECT_TIMEOUT_SECS: u64 = 30;

pub const READ_TIMEOUT_SECS: u64 = 60;

pub const TOTAL_TIMEOUT_SECS: u64 = 120;

pub const MAX_REDIRECTS: usize = 10;

pub const MAX_RESPONSE_BYTES: usize = 50_000_000;

pub const MAX_YAML_REGEX_PATTERN_LEN: usize = 4 * 1024;

pub const MAX_REGEX_INPUT_LEN: usize = 8 * 1024 * 1024;

/// An ASCII control byte (0x00 to 0x1f, or 0x7f).
pub open spec fn is_ascii_control_byte(b: u8) -> bool {
    b < 0x20 || b == 0x7f
}

/// Whether `value` may be sent as a header value: none of its UTF-8 bytes is
/// an ASCII control byte, so it cannot end the header or start another.
pub fn is_safe_header_value(value: &str) -> (b: bool)
    ensures
        b == forall|i: int|
            0 <= i < value.spec_bytes().len() ==> !is_ascii_control_byte(
                #[trigger] value.spec_bytes()[i],
            ),
{
    let bytes = value.as_bytes();
    let mut i: usize = 0;
    while i < bytes.len()
        invariant
            bytes@ == value.spec_bytes(),
            i <= bytes@.len(),
            forall|j: int| 0 <= j < i ==> !is_ascii_control_byte(#[trigger] bytes@[j]),
        decreases bytes@.len() - i,
    {
        let byte = bytes[i];
        if byte < 0x20 || byte == 0x7f {
            assert(is_ascii_control_byte(bytes@[i as int]));
            return false;
        }
        i = i + 1;
    }
    true
}

} // verus!
