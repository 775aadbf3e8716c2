//! Extraction of the server name from the first TLS record.
//!
//! The input is whatever the first read on a fresh connection returned.
//! [`spec_parse_sni`] states, byte for byte, which inputs carry a server
//! name and which bytes form it; [`parse_sni`] is proved against it. Every
//! length is checked before it is used, so no input can make the parser
//! read past its slice or panic.

use vstd::prelude::*;
use vstd::slice::slice_to_vec;
use vstd::utf8::decode_utf8;
use vstd::utf8::valid_utf8;

use crate::text::lemma_decode_utf8_len;
use crate::text::string_from_utf8;

verus! {

/// The value of two bytes read in big-endian order.
pub open spec fn be16(hi: u8, lo: u8) -> int {
    hi * 256 + lo
}

/// The value of three bytes read in big-endian order.
pub open spec fn be24(b0: u8, b1: u8, b2: u8) -> int {
    b0 * 65536 + b1 * 256 + b2
}

/// The bytes of the server name carried by the first `server_name`
/// extension body, if the body is well formed: a two-byte list length that
/// fits, a `host_name` entry, and a name of 1 to 255 bytes that fits.
pub open spec fn spec_parse_sni_ext(d: Seq<u8>) -> Option<Seq<u8>> {
    if d.len() < 5 {
        None
    } else if 2 + be16(d[0], d[1]) > d.len() {
        None
    } else if d[2] != 0 {
        None
    } else {
        let name_len = be16(d[3], d[4]);
        if 5 + name_len > d.len() || name_len == 0 || name_len > 255 {
            None
        } else {
            Some(d.subrange(5, 5 + name_len))
        }
    }
}

/// Walks the extension list between `pos` and `end` and yields the body of
/// the first `server_name` extension, parsed by [`spec_parse_sni_ext`].
pub open spec fn spec_find_sni(data: Seq<u8>, pos: int, end: int) -> Option<Seq<u8>>
    decreases end - pos,
{
    if pos + 4 <= end {
        let ext_type = be16(data[pos], data[pos + 1]);
        let ext_len = be16(data[pos + 2], data[pos + 3]);
        if pos + 4 + ext_len > end {
            None
        } else if ext_type == 0 {
            spec_parse_sni_ext(data.subrange(pos + 4, pos + 4 + ext_len))
        } else {
            spec_find_sni(data, pos + 4 + ext_len, end)
        }
    } else {
        None
    }
}

/// The bytes of the server name in a TLS ClientHello record, if the input
/// opens one: handshake record of TLS 1.x, ClientHello message whose stated
/// length fits, then session id, cipher suites, compression methods and
/// extensions, each guarded by its length field.
pub open spec fn spec_parse_sni(data: Seq<u8>) -> Option<Seq<u8>> {
    if data.len() < 43 {
        None
    } else if data[0] != 0x16 {
        None
    } else if data[1] != 0x03 {
        None
    } else if data[5] != 0x01 {
        None
    } else if 9 + be24(data[6], data[7], data[8]) > data.len() {
        None
    } else if 43 >= data.len() {
        None
    } else {
        let sid_len = data[43];
        let p1 = 44 + sid_len;
        if p1 + 2 > data.len() {
            None
        } else {
            let cs_len = be16(data[p1], data[p1 + 1]);
            let p2 = p1 + 2 + cs_len;
            if p2 >= data.len() {
                None
            } else {
                let comp_len = data[p2];
                let p3 = p2 + 1 + comp_len;
                if p3 + 2 > data.len() {
                    None
                } else {
                    let ext_len = be16(data[p3], data[p3 + 1]);
                    let p4 = p3 + 2;
                    if p4 + ext_len > data.len() {
                        None
                    } else {
                        spec_find_sni(data, p4, p4 + ext_len)
                    }
                }
            }
        }
    }
}

/// Reads two bytes of `data` in big-endian order.
fn read_be16(data: &[u8], pos: usize) -> (v: usize)
    requires
        pos + 1 < data@.len(),
    ensures
        v == be16(data@[pos as int], data@[pos as int + 1]),
        v <= 65535,
{
    let hi = data[pos];
    let lo = data[pos + 1];
    (hi as usize) * 256 + (lo as usize)
}

/// The server name bytes of the extension body `d`, per
/// [`spec_parse_sni_ext`].
fn parse_sni_ext_bytes(d: &[u8]) -> (r: Option<Vec<u8>>)
    ensures
        r is Some <==> spec_parse_sni_ext(d@) is Some,
        r matches Some(v) ==> spec_parse_sni_ext(d@) == Some(v@) && 1 <= v@.len() <= 255,
{
    let len = d.len();
    if len < 5 {
        return None;
    }
    let list_len = read_be16(d, 0);
    if list_len > len - 2 {
        return None;
    }
    if d[2] != 0 {
        return None;
    }
    let name_len = read_be16(d, 3);
    if name_len > len - 5 || name_len == 0 || name_len > 255 {
        return None;
    }
    let name = slice_to_vec(&d[5..5 + name_len]);
    Some(name)
}

/// The server name bytes of the ClientHello `data`, per
/// [`spec_parse_sni`].
fn parse_sni_bytes(data: &[u8]) -> (r: Option<Vec<u8>>)
    ensures
        r is Some <==> spec_parse_sni(data@) is Some,
        r matches Some(v) ==> spec_parse_sni(data@) == Some(v@) && 1 <= v@.len() <= 255,
{
    let len = data.len();
    if len < 43 {
        return None;
    }
    if data[0] != 0x16 {
        return None;
    }
    if data[1] != 0x03 {
        return None;
    }
    if data[5] != 0x01 {
        return None;
    }
    let b6 = data[6];
    let b7 = data[7];
    let b8 = data[8];
    let handshake_len = (b6 as usize) * 65536 + (b7 as usize) * 256 + (b8 as usize);
    if handshake_len > len - 9 {
        return None;
    }
    if len == 43 {
        return None;
    }
    let sid_len = data[43] as usize;
    if sid_len > len - 44 {
        return None;
    }
    let p1 = 44 + sid_len;
    if len - p1 < 2 {
        return None;
    }
    let cs_len = read_be16(data, p1);
    if cs_len > len - p1 - 2 {
        return None;
    }
    let p2 = p1 + 2 + cs_len;
    if p2 >= len {
        return None;
    }
    let comp_len = data[p2] as usize;
    if comp_len > len - p2 - 1 {
        return None;
    }
    let p3 = p2 + 1 + comp_len;
    if len - p3 < 2 {
        return None;
    }
    let ext_len = read_be16(data, p3);
    let p4 = p3 + 2;
    if ext_len > len - p4 {
        return None;
    }
    let end = p4 + ext_len;
    let mut pos = p4;
    loop
        invariant
            p4 <= pos <= end <= len == data@.len(),
            spec_find_sni(data@, pos as int, end as int) == spec_find_sni(
                data@,
                p4 as int,
                end as int,
            ),
            spec_parse_sni(data@) == spec_find_sni(data@, p4 as int, end as int),
        decreases end - pos,
    {
        if end - pos < 4 {
            return None;
        }
        let ext_type = read_be16(data, pos);
        let ext_len_i = read_be16(data, pos + 2);
        if ext_len_i > end - pos - 4 {
            return None;
        }
        if ext_type == 0 {
            let body = &data[pos + 4..pos + 4 + ext_len_i];
            return parse_sni_ext_bytes(body);
        }
        pos = pos + 4 + ext_len_i;
    }
}

/// The server name announced in the first TLS record, decoded as UTF-8.
///
/// Returns `Some` exactly when [`spec_parse_sni`] accepts the input and the
/// name bytes are valid UTF-8; the result is never empty and never longer
/// than 255 bytes. The name is returned as the client sent it; matching
/// lowercases later.
pub fn parse_sni(data: &[u8]) -> (r: Option<String>)
    ensures
        spec_parse_sni(data@) is None ==> r is None,
        spec_parse_sni(data@) matches Some(name) ==> {
            &&& r is Some <==> valid_utf8(name)
            &&& (r matches Some(s) ==> s@ == decode_utf8(name))
        },
        r matches Some(s) ==> 1 <= s@.len() <= 255,
{
    match parse_sni_bytes(data) {
        None => None,
        Some(name) => {
            proof {
                if valid_utf8(name@) {
                    lemma_decode_utf8_len(name@);
                }
            }
            string_from_utf8(name)
        },
    }
}

/// The server name carried by one `server_name` extension body, decoded as
/// UTF-8; `Some` exactly when [`spec_parse_sni_ext`] accepts the body and
/// the name bytes are valid UTF-8.
pub fn parse_sni_extension(data: &[u8]) -> (r: Option<String>)
    ensures
        spec_parse_sni_ext(data@) is None ==> r is None,
        spec_parse_sni_ext(data@) matches Some(name) ==> {
            &&& r is Some <==> valid_utf8(name)
            &&& (r matches Some(s) ==> s@ == decode_utf8(name))
        },
        r matches Some(s) ==> 1 <= s@.len() <= 255,
{
    match parse_sni_ext_bytes(data) {
        None => None,
        Some(name) => {
            proof {
                if valid_utf8(name@) {
                    lemma_decode_utf8_len(name@);
                }
            }
            string_from_utf8(name)
        },
    }
}

} // verus!
