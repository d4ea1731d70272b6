//! Length-prefixed framing of a script payload for the loopback listener.
//!
//! A wire message is a 16-byte header, the payload bytes and one zero byte.
//! Header bytes 8..12 hold, little-endian, the payload length plus one (the
//! terminator); every other header byte is zero.
use vstd::arithmetic::div_mod::lemma_fundamental_div_mod;
use vstd::prelude::*;

verus! {

/// Size of the fixed header in bytes.
pub const HEADER_LEN: usize = 16;

/// Offset of the little-endian length field inside the header.
pub const LENGTH_OFFSET: usize = 8;

/// Loopback port on which the listener accepts scripts.
pub const LISTENER_PORT: u16 = 5553;

/// Bound, in milliseconds, on connecting and on each read or write.
pub const IO_TIMEOUT_MS: u64 = 3000;

/// Largest value the 32-bit length field can hold.
pub open spec fn length_field_max() -> int {
    0xffff_ffff
}

/// Byte `k` (0 = least significant) of `n` in little-endian order.
pub open spec fn le_byte(n: int, k: int) -> u8 {
    if k == 0 {
        (n % 256) as u8
    } else if k == 1 {
        ((n / 256) % 256) as u8
    } else if k == 2 {
        ((n / 65536) % 256) as u8
    } else {
        ((n / 16777216) % 256) as u8
    }
}

/// The unsigned 32-bit little-endian integer held in `s[off..off + 4]`.
pub open spec fn le_u32_at(s: Seq<u8>, off: int) -> int {
    s[off] as int + 256 * (s[off + 1] as int) + 65536 * (s[off + 2] as int) + 16777216 * (
    s[off + 3] as int)
}

/// The header announcing `total` bytes (payload plus terminator).
pub open spec fn header_spec(total: nat) -> Seq<u8> {
    Seq::new(
        16,
        |i: int|
            if 8 <= i < 12 {
                le_byte(total as int, i - 8)
            } else {
                0u8
            },
    )
}

/// Whether a payload of `len` bytes can be framed: `len + 1` must fit the field.
pub open spec fn frameable(len: nat) -> bool {
    len + 1 <= length_field_max()
}

/// The complete wire message for `payload`.
pub open spec fn message_spec(payload: Seq<u8>) -> Seq<u8> {
    header_spec(payload.len() + 1) + payload + seq![0u8]
}

/// Why a payload could not be framed.
#[derive(Debug, Clone, Copy, PartialEq, Eq, Structural)]
pub enum FrameError {
    /// The payload plus its terminator does not fit the 32-bit length field.
    PayloadTooLarge,
}

impl FrameError {
    /// The message handed back to the caller for this error.
    pub fn message(&self) -> (r: String)
        ensures
            r@ == "Script is too large to send"@,
    {
        String::from_str("Script is too large to send")
    }
}

/// Decomposing an integer of 32 bits into its little-endian bytes and back
/// gives the integer.
pub proof fn lemma_le_bytes_round_trip(n: int)
    requires
        0 <= n <= length_field_max(),
    ensures
        le_byte(n, 0) as int + 256 * (le_byte(n, 1) as int) + 65536 * (le_byte(n, 2) as int)
            + 16777216 * (le_byte(n, 3) as int) == n,
{
    let b0 = n % 256;
    let q0 = n / 256;
    let b1 = q0 % 256;
    let q1 = q0 / 256;
    let b2 = q1 % 256;
    let q2 = q1 / 256;
    lemma_fundamental_div_mod(n, 256);
    lemma_fundamental_div_mod(q0, 256);
    lemma_fundamental_div_mod(q1, 256);
    assert(q2 < 256) by (nonlinear_arith)
        requires
            n <= 0xffff_ffff,
            q0 == n / 256,
            q1 == q0 / 256,
            q2 == q1 / 256,
            n >= 0,
    ;
    assert(n / 65536 == q1) by (nonlinear_arith)
        requires
            q0 == n / 256,
            q1 == q0 / 256,
            n >= 0,
    ;
    assert(n / 16777216 == q2) by (nonlinear_arith)
        requires
            q0 == n / 256,
            q1 == q0 / 256,
            q2 == q1 / 256,
            n >= 0,
    ;
    assert(q2 % 256 == q2);
    assert(n == b0 + 256 * b1 + 65536 * b2 + 16777216 * q2) by (nonlinear_arith)
        requires
            n == b0 + 256 * q0,
            q0 == b1 + 256 * q1,
            q1 == b2 + 256 * q2,
    ;
}

/// For every payload that can be framed, the message is the header, the
/// payload and the terminator (`16 + len + 1` bytes), and the length field at
/// offset 8 reads back as exactly `len + 1`.
pub proof fn lemma_message_layout(payload: Seq<u8>)
    requires
        frameable(payload.len()),
    ensures
        message_spec(payload).len() == HEADER_LEN + payload.len() + 1,
        le_u32_at(message_spec(payload), LENGTH_OFFSET as int) == payload.len() + 1,
        message_spec(payload).subrange(16, 16 + payload.len() as int) == payload,
        message_spec(payload)[16 + payload.len() as int] == 0,
{
    let m = message_spec(payload);
    let n: int = payload.len() as int + 1;
    assert(m[8] == le_byte(n, 0));
    assert(m[9] == le_byte(n, 1));
    assert(m[10] == le_byte(n, 2));
    assert(m[11] == le_byte(n, 3));
    lemma_le_bytes_round_trip(n);
    assert(m.subrange(16, 16 + payload.len() as int) =~= payload);
}

/// Builds the 16-byte header for a payload of `payload_len` bytes, or reports
/// that the length field cannot hold `payload_len + 1`.
pub fn frame_header(payload_len: usize) -> (r: Result<Vec<u8>, FrameError>)
    ensures
        match r {
            Ok(h) => frameable(payload_len as nat) && h@ == header_spec((payload_len + 1) as nat),
            Err(e) => !frameable(payload_len as nat) && e == FrameError::PayloadTooLarge,
        },
{
    if payload_len >= 0xffff_ffff {
        return Err(FrameError::PayloadTooLarge);
    }
    let total: u32 = (payload_len + 1) as u32;
    let mut h: Vec<u8> = Vec::new();
    let mut i: usize = 0;
    while i < HEADER_LEN
        invariant
            i <= HEADER_LEN,
            h@.len() == i,
            total as int == payload_len + 1,
            forall|j: int| 0 <= j < i ==> h@[j] == header_spec(total as nat)[j],
        decreases HEADER_LEN - i,
    {
        let b: u8 = if i == 8 {
            (total % 256) as u8
        } else if i == 9 {
            ((total / 256) % 256) as u8
        } else if i == 10 {
            ((total / 65536) % 256) as u8
        } else if i == 11 {
            ((total / 16777216) % 256) as u8
        } else {
            0u8
        };
        h.push(b);
        i = i + 1;
    }
    assert(h@ =~= header_spec((payload_len + 1) as nat));
    Ok(h)
}

/// Builds the whole wire message for `payload`: header, payload, terminator.
/// Fails, before any I/O could happen, exactly when the payload is too large.
pub fn build_message(payload: &[u8]) -> (r: Result<Vec<u8>, FrameError>)
    ensures
        match r {
            Ok(m) => frameable(payload@.len()) && m@ == message_spec(payload@),
            Err(e) => !frameable(payload@.len()) && e == FrameError::PayloadTooLarge,
        },
{
    let mut m = match frame_header(payload.len()) {
        Ok(h) => h,
        Err(e) => return Err(e),
    };
    let mut i: usize = 0;
    while i < payload.len()
        invariant
            i <= payload@.len(),
            m@ == header_spec(payload@.len() + 1) + payload@.subrange(0, i as int),
        decreases payload@.len() - i,
    {
        m.push(payload[i]);
        i = i + 1;
        assert(m@ =~= header_spec(payload@.len() + 1) + payload@.subrange(0, i as int));
    }
    m.push(0u8);
    assert(payload@.subrange(0, payload@.len() as int) =~= payload@);
    assert(m@ =~= message_spec(payload@));
    Ok(m)
}

/// The stage of a send at which a transport failure happened.
#[derive(Debug, Clone, Copy, PartialEq, Eq, Structural)]
pub enum SendStage {
    Connect,
    SetWriteTimeout,
    SetReadTimeout,
    WriteHeader,
    WritePayload,
    WriteTerminator,
    Flush,
}

/// The diagnostic prefix reported for a failure at `stage`.
pub open spec fn stage_prefix_spec(stage: SendStage) -> Seq<char> {
    match stage {
        SendStage::Connect => "Failed to connect"@,
        SendStage::SetWriteTimeout => "Failed to set write timeout"@,
        SendStage::SetReadTimeout => "Failed to set read timeout"@,
        SendStage::WriteHeader => "Failed to write header"@,
        SendStage::WritePayload => "Failed to write script"@,
        SendStage::WriteTerminator => "Failed to write null terminator"@,
        SendStage::Flush => "Failed to flush stream"@,
    }
}

impl SendStage {
    /// The diagnostic prefix that distinguishes a failure at this stage.
    pub fn prefix(&self) -> (r: String)
        ensures
            r@ == stage_prefix_spec(*self),
    {
        match self {
            SendStage::Connect => String::from_str("Failed to connect"),
            SendStage::SetWriteTimeout => String::from_str("Failed to set write timeout"),
            SendStage::SetReadTimeout => String::from_str("Failed to set read timeout"),
            SendStage::WriteHeader => String::from_str("Failed to write header"),
            SendStage::WritePayload => String::from_str("Failed to write script"),
            SendStage::WriteTerminator => String::from_str("Failed to write null terminator"),
            SendStage::Flush => String::from_str("Failed to flush stream"),
        }
    }
}

} // verus!
