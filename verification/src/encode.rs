//! Export handoff: the data-URL text under which the host's download
//! mechanism receives a byte buffer — the fixed octet-stream prefix,
//! then the buffer's base64 text.

use vstd::prelude::*;
use base64::Engine;

verus! {

/// What the standard base64 alphabet, with padding, encodes a byte
/// sequence to.
pub uninterp spec fn base64_of(b: Seq<u8>) -> Seq<u8>;

/// Relies on base64's `Engine::encode` with the `STANDARD` engine: the
/// output is a function of the input bytes alone, four bytes for every
/// three input bytes begun.
#[verifier::external_body]
fn base64_encode(buf: &Vec<u8>) -> (r: Vec<u8>)
    requires
        buf@.len() <= 0x1000_0000,
    ensures
        r@ == base64_of(buf@),
        r@.len() == 4 * ((buf@.len() + 2) / 3),
{
    base64::engine::general_purpose::STANDARD.encode(buf).into_bytes()
}

/// The fixed prefix of an octet-stream data URL, as bytes.
pub open spec fn data_url_prefix() -> Seq<u8> {
    seq![
        100u8, 97u8, 116u8, 97u8, 58u8, 97u8, 112u8, 112u8, 108u8, 105u8,
        99u8, 97u8, 116u8, 105u8, 111u8, 110u8, 47u8, 111u8, 99u8, 116u8,
        101u8, 116u8, 45u8, 115u8, 116u8, 114u8, 101u8, 97u8, 109u8, 59u8,
        98u8, 97u8, 115u8, 101u8, 54u8, 52u8, 44u8
    ]
}

/// The data URL for a byte buffer: the fixed octet-stream prefix, then
/// the buffer's base64 text.
pub fn data_url(buf: &Vec<u8>) -> (r: Vec<u8>)
    requires
        buf@.len() <= 0x1000_0000,
    ensures
        r@ == data_url_prefix() + base64_of(buf@),
{
    let mut out: Vec<u8> = Vec::new();
    out.push(100u8);
    out.push(97u8);
    out.push(116u8);
    out.push(97u8);
    out.push(58u8);
    out.push(97u8);
    out.push(112u8);
    out.push(112u8);
    out.push(108u8);
    out.push(105u8);
    out.push(99u8);
    out.push(97u8);
    out.push(116u8);
    out.push(105u8);
    out.push(111u8);
    out.push(110u8);
    out.push(47u8);
    out.push(111u8);
    out.push(99u8);
    out.push(116u8);
    out.push(101u8);
    out.push(116u8);
    out.push(45u8);
    out.push(115u8);
    out.push(116u8);
    out.push(114u8);
    out.push(101u8);
    out.push(97u8);
    out.push(109u8);
    out.push(59u8);
    out.push(98u8);
    out.push(97u8);
    out.push(115u8);
    out.push(101u8);
    out.push(54u8);
    out.push(52u8);
    out.push(44u8);
    proof {
        assert(out@ =~= data_url_prefix());
    }
    let mut tail = base64_encode(buf);
    out.append(&mut tail);
    out
}

} // verus!
