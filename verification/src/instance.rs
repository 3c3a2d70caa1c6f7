//! Keeping one DuckDisk running across its editions: the local port that
//! the first instance holds, and the handshake that wakes it.

use vstd::prelude::*;
use crate::text::chars_of;

verus! {

pub const INSTANCE_ADDRESS: &'static str = "127.0.0.1:53337";
pub const INSTANCE_WAKE_REQUEST: &'static str = "DUCKDISK_ACTIVATE_V1";
pub const INSTANCE_WAKE_RESPONSE: &'static str = "DUCKDISK_ACTIVE_V1";

/// The bytes of a handshake message.
pub fn message_bytes(message: &str) -> (r: Vec<u8>)
    ensures
        r@ == vstd::utf8::encode_utf8(message@),
{
    let b = message.as_bytes();
    let mut v: Vec<u8> = Vec::new();
    for k in 0..b.len()
        invariant
            b@ == vstd::utf8::encode_utf8(message@),
            v@ == b@.take(k as int),
    {
        v.push(b[k]);
        assert(b@.take(k + 1) == b@.take(k as int).push(b@[k as int]));
    }
    assert(b@.take(b@.len() as int) == b@);
    v
}

fn bytes_equal(a: &[u8], b: &[u8]) -> (r: bool)
    ensures
        r == (a@ == b@),
{
    if a.len() != b.len() {
        return false;
    }
    for k in 0..a.len()
        invariant
            a@.len() == b@.len(),
            forall|m: int| 0 <= m < k ==> a@[m] == b@[m],
    {
        if a[k] != b[k] {
            return false;
        }
    }
    assert(a@ =~= b@);
    true
}

/// Whether bytes read from a connection are the wake request.
pub fn is_wake_request(bytes: &[u8]) -> (r: bool)
    ensures
        r == (bytes@ == vstd::utf8::encode_utf8(INSTANCE_WAKE_REQUEST@)),
{
    let want = message_bytes(INSTANCE_WAKE_REQUEST);
    bytes_equal(bytes, want.as_slice())
}

/// Whether bytes read back are the running instance's answer.
pub fn is_wake_response(bytes: &[u8]) -> (r: bool)
    ensures
        r == (bytes@ == vstd::utf8::encode_utf8(INSTANCE_WAKE_RESPONSE@)),
{
    let want = message_bytes(INSTANCE_WAKE_RESPONSE);
    bytes_equal(bytes, want.as_slice())
}

/// What binding the instance port gave.
#[derive(Clone, Copy, PartialEq, Eq, Structural, Debug)]
pub enum BindOutcome {
    Bound,
    AddressInUse,
    Failed,
}

/// Whether this process runs the app, and whether it listens for wake
/// requests.
#[derive(Clone, Copy, PartialEq, Eq, Structural, Debug)]
pub enum InstanceAcquisition {
    /// This process runs the app; `listening` when it holds the port.
    Primary { listening: bool },
    /// Another instance answered and was woken: this process exits.
    Existing,
}

/// Decides from the bind and, when the port was taken, whether the
/// holder answered the handshake: a holder that answers is another
/// DuckDisk; anything else leaves this process running without the
/// protection.
pub fn acquisition(bind: BindOutcome, holder_answered: bool) -> (r: InstanceAcquisition)
    ensures
        r == (match bind {
            BindOutcome::Bound => InstanceAcquisition::Primary { listening: true },
            BindOutcome::AddressInUse => if holder_answered {
                InstanceAcquisition::Existing
            } else {
                InstanceAcquisition::Primary { listening: false }
            },
            BindOutcome::Failed => InstanceAcquisition::Primary { listening: false },
        }),
{
    match bind {
        BindOutcome::Bound => InstanceAcquisition::Primary { listening: true },
        BindOutcome::AddressInUse => if holder_answered {
            InstanceAcquisition::Existing
        } else {
            InstanceAcquisition::Primary { listening: false }
        },
        BindOutcome::Failed => InstanceAcquisition::Primary { listening: false },
    }
}

} // verus!
