use vstd::prelude::*;

verus! {

use crate::types::Block;
use vstd::string::StringSliceAdditionalSpecFns;
use vstd::utf8::valid_utf8;
use vstd::utf8::decode_utf8;

/// Error taxonomy of the length-prefixed protocol-string exchange.
#[derive(Debug, Clone, Copy, PartialEq, Eq, Structural)]
pub enum ProtocolError {
    /// The string is too long for the four-digit hex length prefix.
    InvalidInput,
    /// The length prefix is not hexadecimal, or the payload is not UTF-8.
    InvalidData,
    /// The reader ran out of bytes before the message was complete.
    UnexpectedEof,
}

/// The longest string the protocol can frame: its length must fit in four
/// hex digits.
pub open spec fn max_protocol_string_len() -> nat {
    0xFFFF
}

/// Whether a byte is an ASCII hexadecimal digit.
pub open spec fn is_hex_digit(b: u8) -> bool {
    (0x30 <= b <= 0x39) || (0x61 <= b <= 0x66) || (0x41 <= b <= 0x46)
}

/// The numeric value of an ASCII hexadecimal digit.
pub open spec fn hex_value(b: u8) -> int {
    if 0x30 <= b <= 0x39 {
        b - 0x30
    } else if 0x61 <= b <= 0x66 {
        b - 0x61 + 10
    } else {
        b - 0x41 + 10
    }
}

/// The lowercase ASCII digit for a nibble.
pub open spec fn hex_digit_of(v: int) -> u8 {
    if v < 10 {
        (0x30 + v) as u8
    } else {
        (0x61 + v - 10) as u8
    }
}

/// The four lowercase hex digits of a length not exceeding 0xFFFF,
/// most significant first.
pub open spec fn hex4(n: int) -> Seq<u8> {
    seq![
        hex_digit_of((n / 0x1000) % 16),
        hex_digit_of((n / 0x100) % 16),
        hex_digit_of((n / 0x10) % 16),
        hex_digit_of(n % 16),
    ]
}

/// The length a four-byte prefix encodes, if it is hexadecimal: either four
/// hex digits, or a leading plus sign followed by three (the two forms the
/// original length parser accepted).
pub open spec fn parse_hex_prefix(s: Seq<u8>) -> Option<int>
    recommends
        s.len() == 4,
{
    if s[0] == 0x2b {
        if is_hex_digit(s[1]) && is_hex_digit(s[2]) && is_hex_digit(s[3]) {
            Some(hex_value(s[1]) * 0x100 + hex_value(s[2]) * 0x10 + hex_value(s[3]))
        } else {
            None
        }
    } else {
        if is_hex_digit(s[0]) && is_hex_digit(s[1]) && is_hex_digit(s[2]) && is_hex_digit(s[3]) {
            Some(
                hex_value(s[0]) * 0x1000 + hex_value(s[1]) * 0x100 + hex_value(s[2]) * 0x10
                    + hex_value(s[3]),
            )
        } else {
            None
        }
    }
}

fn hex_digit_byte(v: u8) -> (r: u8)
    requires
        v < 16,
    ensures
        r == hex_digit_of(v as int),
{
    if v < 10 {
        0x30 + v
    } else {
        0x61 + (v - 10)
    }
}

fn hex_value_byte(b: u8) -> (r: Option<u8>)
    ensures
        match r {
            Some(v) => is_hex_digit(b) && v == hex_value(b),
            None => !is_hex_digit(b),
        },
{
    if 0x30 <= b && b <= 0x39 {
        Some(b - 0x30)
    } else if 0x61 <= b && b <= 0x66 {
        Some(b - 0x61 + 10)
    } else if 0x41 <= b && b <= 0x46 {
        Some(b - 0x41 + 10)
    } else {
        None
    }
}

/// Appends all of `buf` to the writer. Writing into a byte buffer cannot run
/// short, so this always succeeds; the result type mirrors the fallible
/// write of a real transport.
pub fn write_exactly(writer: &mut Vec<u8>, buf: &[u8]) -> (r: Result<(), ProtocolError>)
    ensures
        r is Ok,
        final(writer)@ == old(writer)@ + buf@,
{
    let mut i: usize = 0;
    while i < buf.len()
        invariant
            i <= buf@.len(),
            writer@ =~= old(writer)@ + buf@.take(i as int),
        decreases buf@.len() - i,
    {
        let byte = buf[i];
        writer.push(byte);
        i += 1;
        proof {
            assert(writer@ =~= old(writer)@ + buf@.take(i as int));
        }
    }
    proof {
        assert(writer@ =~= old(writer)@ + buf@);
    }
    Ok(())
}

/// Reads exactly `n` bytes from the reader's position, advancing it; fails
/// and leaves the reader unchanged when fewer remain.
pub fn read_exactly(reader: &mut Block, n: usize) -> (r: Result<Vec<u8>, ProtocolError>)
    requires
        old(reader).wf(),
    ensures
        final(reader).wf(),
        match r {
            Ok(buf) => {
                &&& old(reader).pos() + n <= old(reader).bytes().len()
                &&& buf@ == old(reader).bytes().subrange(old(reader).pos(), old(reader).pos() + n)
                &&& final(reader).bytes() == old(reader).bytes()
                &&& final(reader).pos() == old(reader).pos() + n
            },
            Err(e) => {
                &&& e == ProtocolError::UnexpectedEof
                &&& old(reader).pos() + n > old(reader).bytes().len()
                &&& *final(reader) == *old(reader)
            },
        },
{
    if reader.remaining() < n {
        return Err(ProtocolError::UnexpectedEof);
    }
    let start = reader.position();
    let total = reader.len();
    let ghost p0 = old(reader).pos();
    let mut buf: Vec<u8> = Vec::new();
    let mut i: usize = 0;
    while i < n
        invariant
            i <= n,
            *reader == *old(reader),
            reader.wf(),
            start == p0,
            total == reader.bytes().len(),
            p0 + n <= reader.bytes().len(),
            buf@ =~= reader.bytes().subrange(p0, p0 + i),
        decreases n - i,
    {
        let byte = reader.read_byte_at(start + i);
        buf.push(byte);
        i += 1;
        proof {
            assert(buf@ =~= reader.bytes().subrange(p0, p0 + i));
        }
    }
    reader.advance(n);
    Ok(buf)
}

/// Frames a string for the wire: a four-digit lowercase hex length prefix
/// followed by the string's bytes. Strings longer than the prefix can encode
/// are rejected and nothing is written.
pub fn send_protocol_string(writer: &mut Vec<u8>, s: &str) -> (r: Result<(), ProtocolError>)
    ensures
        match r {
            Ok(()) => {
                &&& s.spec_bytes().len() <= max_protocol_string_len()
                &&& final(writer)@ == old(writer)@ + hex4(s.spec_bytes().len() as int)
                    + s.spec_bytes()
            },
            Err(e) => {
                &&& e == ProtocolError::InvalidInput
                &&& s.spec_bytes().len() > max_protocol_string_len()
                &&& final(writer)@ == old(writer)@
            },
        },
{
    let bytes = s.as_bytes();
    let n = bytes.len();
    if n > 0xFFFF {
        return Err(ProtocolError::InvalidInput);
    }
    let n64 = n as u64;
    proof {
        assert(((n64 >> 12) & 0xf) == (n64 / 0x1000) % 16 && ((n64 >> 8) & 0xf) == (n64 / 0x100)
            % 16 && ((n64 >> 4) & 0xf) == (n64 / 0x10) % 16 && (n64 & 0xf) == n64 % 16 && ((n64
            >> 12) & 0xf) < 16 && ((n64 >> 8) & 0xf) < 16 && ((n64 >> 4) & 0xf) < 16 && (n64 & 0xf)
            < 16) by (bit_vector)
            requires
                n64 <= 0xFFFF,
        ;
    }
    let d0 = hex_digit_byte(((n64 >> 12) & 0xf) as u8);
    let d1 = hex_digit_byte(((n64 >> 8) & 0xf) as u8);
    let d2 = hex_digit_byte(((n64 >> 4) & 0xf) as u8);
    let d3 = hex_digit_byte((n64 & 0xf) as u8);
    writer.push(d0);
    writer.push(d1);
    writer.push(d2);
    writer.push(d3);
    let r = write_exactly(writer, bytes);
    proof {
        assert(writer@ =~= old(writer)@ + hex4(s.spec_bytes().len() as int) + s.spec_bytes());
    }
    r
}

/// Reads one protocol string: a four-byte hex length prefix, then that many
/// payload bytes, decoded as UTF-8. Any failure leaves the reader unchanged.
pub fn read_protocol_string(reader: &mut Block) -> (r: Result<String, ProtocolError>)
    requires
        old(reader).wf(),
    ensures
        final(reader).wf(),
        ({
            let rest = old(reader).bytes().skip(old(reader).pos());
            match r {
                Ok(s) => {
                    &&& rest.len() >= 4
                    &&& parse_hex_prefix(rest.take(4)) matches Some(n) && {
                        &&& 4 + n <= rest.len()
                        &&& valid_utf8(rest.subrange(4, 4 + n))
                        &&& s@ == decode_utf8(rest.subrange(4, 4 + n))
                        &&& final(reader).pos() == old(reader).pos() + 4 + n
                    }
                    &&& final(reader).bytes() == old(reader).bytes()
                },
                Err(e) => {
                    &&& *final(reader) == *old(reader)
                    &&& if rest.len() < 4 {
                        e == ProtocolError::UnexpectedEof
                    } else if parse_hex_prefix(rest.take(4)) is None {
                        e == ProtocolError::InvalidData
                    } else {
                        let n = parse_hex_prefix(rest.take(4))->Some_0;
                        if rest.len() < 4 + n {
                            e == ProtocolError::UnexpectedEof
                        } else {
                            e == ProtocolError::InvalidData && !valid_utf8(rest.subrange(4, 4 + n))
                        }
                    }
                },
            }
        }),
{
    let ghost p0 = old(reader).pos();
    let ghost rest = old(reader).bytes().skip(p0);
    let pos = reader.position();
    let total = reader.len();
    let avail = reader.remaining();
    if avail < 4 {
        return Err(ProtocolError::UnexpectedEof);
    }
    let b0 = reader.read_byte_at(pos);
    let b1 = reader.read_byte_at(pos + 1);
    let b2 = reader.read_byte_at(pos + 2);
    let b3 = reader.read_byte_at(pos + 3);
    proof {
        assert(rest.take(4) =~= seq![b0, b1, b2, b3]);
    }
    let len: usize = if b0 == 0x2b {
        let v1 = match hex_value_byte(b1) {
            Some(v) => v,
            None => {
                return Err(ProtocolError::InvalidData);
            },
        };
        let v2 = match hex_value_byte(b2) {
            Some(v) => v,
            None => {
                return Err(ProtocolError::InvalidData);
            },
        };
        let v3 = match hex_value_byte(b3) {
            Some(v) => v,
            None => {
                return Err(ProtocolError::InvalidData);
            },
        };
        (v1 as usize) * 0x100 + (v2 as usize) * 0x10 + (v3 as usize)
    } else {
        let v0 = match hex_value_byte(b0) {
            Some(v) => v,
            None => {
                return Err(ProtocolError::InvalidData);
            },
        };
        let v1 = match hex_value_byte(b1) {
            Some(v) => v,
            None => {
                return Err(ProtocolError::InvalidData);
            },
        };
        let v2 = match hex_value_byte(b2) {
            Some(v) => v,
            None => {
                return Err(ProtocolError::InvalidData);
            },
        };
        let v3 = match hex_value_byte(b3) {
            Some(v) => v,
            None => {
                return Err(ProtocolError::InvalidData);
            },
        };
        (v0 as usize) * 0x1000 + (v1 as usize) * 0x100 + (v2 as usize) * 0x10 + (v3 as usize)
    };
    proof {
        assert(parse_hex_prefix(rest.take(4)) == Some(len as int));
    }
    if avail - 4 < len {
        return Err(ProtocolError::UnexpectedEof);
    }
    let mut body: Vec<u8> = Vec::new();
    let mut i: usize = 0;
    while i < len
        invariant
            i <= len,
            *reader == *old(reader),
            reader.wf(),
            pos == p0,
            total == reader.bytes().len(),
            p0 + 4 + len <= reader.bytes().len(),
            body@ =~= reader.bytes().subrange(p0 + 4, p0 + 4 + i),
        decreases len - i,
    {
        let byte = reader.read_byte_at(pos + 4 + i);
        body.push(byte);
        i += 1;
        proof {
            assert(body@ =~= reader.bytes().subrange(p0 + 4, p0 + 4 + i));
        }
    }
    proof {
        assert(body@ =~= rest.subrange(4, 4 + len as int));
    }
    match bytes_to_string(body) {
        Some(s) => {
            reader.advance(4 + len);
            Ok(s)
        },
        None => Err(ProtocolError::InvalidData),
    }
}

/// Appends the protocol "OKAY" acknowledgement to the writer.
pub fn send_okay(writer: &mut Vec<u8>) -> (r: Result<(), ProtocolError>)
    ensures
        r is Ok,
        final(writer)@ == old(writer)@ + seq![0x4fu8, 0x4bu8, 0x41u8, 0x59u8],
{
    proof {
        reveal_strlit("OKAY");
        assert(vstd::utf8::is_ascii_chars("OKAY"@));
        vstd::utf8::is_ascii_chars_encode_utf8("OKAY"@);
        assert("OKAY".spec_bytes() =~= seq![0x4fu8, 0x4bu8, 0x41u8, 0x59u8]);
    }
    let r = write_exactly(writer, "OKAY".as_bytes());
    r
}

/// Appends the protocol "FAIL" marker followed by the framed failure reason.
/// A reason too long for the protocol leaves only the marker written, as the
/// marker goes out before the framing is refused.
pub fn send_fail(writer: &mut Vec<u8>, reason: &str) -> (r: Result<(), ProtocolError>)
    ensures
        match r {
            Ok(()) => {
                &&& reason.spec_bytes().len() <= max_protocol_string_len()
                &&& final(writer)@ == old(writer)@ + seq![0x46u8, 0x41u8, 0x49u8, 0x4cu8] + hex4(
                    reason.spec_bytes().len() as int,
                ) + reason.spec_bytes()
            },
            Err(e) => {
                &&& e == ProtocolError::InvalidInput
                &&& reason.spec_bytes().len() > max_protocol_string_len()
                &&& final(writer)@ == old(writer)@ + seq![0x46u8, 0x41u8, 0x49u8, 0x4cu8]
            },
        },
{
    proof {
        reveal_strlit("FAIL");
        assert(vstd::utf8::is_ascii_chars("FAIL"@));
        vstd::utf8::is_ascii_chars_encode_utf8("FAIL"@);
        assert("FAIL".spec_bytes() =~= seq![0x46u8, 0x41u8, 0x49u8, 0x4cu8]);
    }
    write_exactly(writer, "FAIL".as_bytes())?;
    send_protocol_string(writer, reason)
}

/// Relies on String::from_utf8: it succeeds exactly on valid UTF-8 input and
/// returns the string decoding those very bytes.
#[verifier::external_body]
fn bytes_to_string(bytes: Vec<u8>) -> (r: Option<String>)
    ensures
        match r {
            Some(s) => valid_utf8(bytes@) && s@ == decode_utf8(bytes@),
            None => !valid_utf8(bytes@),
        },
{
    match String::from_utf8(bytes) {
        Ok(s) => Some(s),
        Err(_) => None,
    }
}

} // verus!
