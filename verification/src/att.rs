//! The ATT protocol: reading the responses and notifications a device
//! sends, and writing the requests sent to it.

use vstd::prelude::*;
use crate::api::CharPropFlags;
use crate::device::{Characteristic, CharacteristicUUID, SpecCharacteristic, SpecCharacteristicUUID};
use crate::hci::{copy_range, le16, u16_at, ParseError};

verus! {

/// ATT opcode: Error Response.
pub const ATT_OP_ERROR_RESP: u8 = 0x01;

/// ATT opcode: Exchange MTU Request.
pub const ATT_OP_EXCHANGE_MTU_REQ: u8 = 0x02;

/// ATT opcode: Read By Type Request.
pub const ATT_OP_READ_BY_TYPE_REQ: u8 = 0x08;

/// ATT opcode: Read By Type Response.
pub const ATT_OP_READ_BY_TYPE_RESP: u8 = 0x09;

/// ATT opcode: Read Request.
pub const ATT_OP_READ_REQ: u8 = 0x0A;

/// ATT opcode: Handle Value Notification.
pub const ATT_OP_VALUE_NOTIFICATION: u8 = 0x1B;

/// A Read By Type Response that carries one 16-bit value.
#[derive(Debug, PartialEq, Clone, Copy)]
pub struct NotifyResponse {
    pub typ: u8,
    pub handle: u16,
    pub value: u16,
}

/// An Exchange MTU Request.
#[derive(Debug, PartialEq, Clone, Copy)]
pub struct ExchangeMTURequest {
    pub client_rx_mtu: u16,
}

/// An Error Response: the request that failed, the handle it was about and
/// why it failed.
#[derive(Debug, PartialEq, Clone, Copy)]
pub struct ErrorResponse {
    pub request_opcode: u8,
    pub handle: u16,
    pub error_code: u8,
}

/// A Handle Value Notification: the handle and the value. The UUID of the
/// characteristic is not in the packet; it is left 16-bit zero here, for
/// the receiver to fill in.
#[derive(Debug, PartialEq, Clone)]
pub struct ValueNotification {
    pub uuid: CharacteristicUUID,
    pub handle: Option<u16>,
    pub value: Vec<u8>,
}

/// The mathematical value of a [`ValueNotification`].
pub struct SpecValueNotification {
    pub uuid: SpecCharacteristicUUID,
    pub handle: Option<u16>,
    pub value: Seq<u8>,
}

impl View for ValueNotification {
    type V = SpecValueNotification;

    open spec fn view(&self) -> SpecValueNotification {
        SpecValueNotification { uuid: self.uuid@, handle: self.handle, value: self.value@ }
    }
}

/// Reading an opcode byte that must be `op`: too short an input is
/// incomplete by one byte; another byte is an error.
pub open spec fn spec_tag(b: Seq<u8>, op: u8) -> Option<ParseError> {
    if b.len() < 1 {
        Some(ParseError::Incomplete(1))
    } else if b[0] != op {
        Some(ParseError::Error)
    } else {
        None
    }
}

/// Reading a Read By Type Response that carries one 16-bit value: the
/// opcode, the length byte, the handle and the value.
pub open spec fn spec_notify_response(b: Seq<u8>) -> Result<(int, NotifyResponse), ParseError> {
    match spec_tag(b, ATT_OP_READ_BY_TYPE_RESP) {
        Some(e) => Err(e),
        None => if b.len() < 2 {
            Err(ParseError::Incomplete(1))
        } else if b.len() < 6 {
            Err(ParseError::Incomplete(2))
        } else {
            Ok((6, NotifyResponse { typ: b[1], handle: le16(b, 2), value: le16(b, 4) }))
        },
    }
}

/// Reading an Exchange MTU Request: the opcode and the client's receive MTU.
pub open spec fn spec_mtu_request(b: Seq<u8>) -> Result<(int, ExchangeMTURequest), ParseError> {
    match spec_tag(b, ATT_OP_EXCHANGE_MTU_REQ) {
        Some(e) => Err(e),
        None => if b.len() < 3 {
            Err(ParseError::Incomplete(2))
        } else {
            Ok((3, ExchangeMTURequest { client_rx_mtu: le16(b, 1) }))
        },
    }
}

/// Reading the body of an Error Response at `p`: the request opcode, the
/// handle and the error code.
pub open spec fn spec_error_response(b: Seq<u8>, p: int) -> Result<(int, ErrorResponse), ParseError> {
    if b.len() < p + 1 {
        Err(ParseError::Incomplete(1))
    } else if b.len() < p + 3 {
        Err(ParseError::Incomplete(2))
    } else if b.len() < p + 4 {
        Err(ParseError::Incomplete(1))
    } else {
        Ok((p + 4, ErrorResponse { request_opcode: b[p], handle: le16(b, p + 1), error_code: b[p + 3] }))
    }
}

/// Reading a Handle Value Notification: the opcode, the handle, and at least
/// one byte of value, which runs to the end of the input.
pub open spec fn spec_value_notification(b: Seq<u8>) -> Result<(int, SpecValueNotification), ParseError> {
    match spec_tag(b, ATT_OP_VALUE_NOTIFICATION) {
        Some(e) => Err(e),
        None => if b.len() < 3 {
            Err(ParseError::Incomplete(2))
        } else if b.len() < 4 {
            Err(ParseError::Error)
        } else {
            Ok(
                (
                    b.len() as int,
                    SpecValueNotification {
                        uuid: SpecCharacteristicUUID::B16(0),
                        handle: Some(le16(b, 1)),
                        value: b.subrange(3, b.len() as int),
                    },
                ),
            )
        },
    }
}

/// The size of one characteristic declaration in a Read By Type Response:
/// seven bytes with a 16-bit UUID, twenty-one with a 128-bit one.
pub open spec fn spec_decl_size(b16: bool) -> int {
    if b16 {
        7
    } else {
        21
    }
}

/// The characteristic declared at `p`: its handle, properties, value handle
/// and UUID. Its end handle is not in the declaration and is set to the
/// last handle.
pub open spec fn spec_characteristic_at(b: Seq<u8>, p: int, b16: bool) -> SpecCharacteristic {
    SpecCharacteristic {
        start_handle: le16(b, p),
        end_handle: 0xFFFF,
        value_handle: le16(b, p + 3),
        uuid: if b16 {
            SpecCharacteristicUUID::B16(le16(b, p + 5))
        } else {
            SpecCharacteristicUUID::B128(b.subrange(p + 5, p + 21))
        },
        properties: b[p + 2],
    }
}

/// Why a characteristic declaration of which only `r` bytes are left cannot
/// be read: the size of the piece that the input ends inside of.
pub open spec fn spec_decl_shortfall(r: int, b16: bool) -> ParseError {
    if r < 2 {
        ParseError::Incomplete(2)
    } else if r < 3 {
        ParseError::Incomplete(1)
    } else if r < 5 {
        ParseError::Incomplete(2)
    } else if b16 {
        ParseError::Incomplete(2)
    } else {
        ParseError::Incomplete(1)
    }
}

/// Reading a response to a characteristic discovery request. An Error
/// Response gives its body as the inner error. A Read By Type Response has a
/// record length; as many declarations are read as records of that length
/// fit in the rest of the input, each of the size its UUID kind gives (a
/// 16-bit UUID exactly when the record length is seven). Any other opcode
/// gives no characteristics and consumes the input.
pub open spec fn spec_characteristics(b: Seq<u8>) -> Result<
    (int, Result<Seq<SpecCharacteristic>, ErrorResponse>),
    ParseError,
> {
    if b.len() < 1 {
        Err(ParseError::Incomplete(1))
    } else if b[0] == ATT_OP_ERROR_RESP {
        match spec_error_response(b, 1) {
            Ok((n, e)) => Ok((n, Err(e))),
            Err(e) => Err(e),
        }
    } else if b[0] == ATT_OP_READ_BY_TYPE_RESP {
        if b.len() < 2 {
            Err(ParseError::Incomplete(1))
        } else {
            let avail = b.len() - 2;
            let num = avail / (b[1] as int);
            let b16 = b[1] == 7;
            let size = spec_decl_size(b16);
            if num * size <= avail {
                Ok(
                    (
                        2 + num * size,
                        Ok(Seq::new(num as nat, |k: int| spec_characteristic_at(b, 2 + k * size, b16))),
                    ),
                )
            } else {
                Err(spec_decl_shortfall(avail % size, b16))
            }
        }
    } else {
        Ok((b.len() as int, Ok(Seq::empty())))
    }
}

/// Whether reading a characteristic discovery response panics: a Read By
/// Type Response with a record length of zero.
pub open spec fn spec_characteristics_panics(b: Seq<u8>) -> bool {
    b.len() >= 2 && b[0] == ATT_OP_READ_BY_TYPE_RESP && b[1] == 0
}

/// Reads a Read By Type Response that carries one 16-bit value.
pub fn notify_response(i: &[u8]) -> (r: Result<(&[u8], NotifyResponse), ParseError>)
    ensures
        match spec_notify_response(i@) {
            Ok((n, v)) => r matches Ok((rest, x)) && rest@ == i@.subrange(n, i@.len() as int) && x == v,
            Err(e) => r == Err::<(&[u8], NotifyResponse), ParseError>(e),
        },
{
    if i.len() < 1 {
        return Err(ParseError::Incomplete(1));
    }
    if i[0] != ATT_OP_READ_BY_TYPE_RESP {
        return Err(ParseError::Error);
    }
    if i.len() < 2 {
        return Err(ParseError::Incomplete(1));
    }
    if i.len() < 6 {
        return Err(ParseError::Incomplete(2));
    }
    let v = NotifyResponse { typ: i[1], handle: u16_at(i, 2), value: u16_at(i, 4) };
    let (_, rest) = i.split_at(6);
    Ok((rest, v))
}

/// Reads an Exchange MTU Request.
pub fn mtu_request(i: &[u8]) -> (r: Result<(&[u8], ExchangeMTURequest), ParseError>)
    ensures
        match spec_mtu_request(i@) {
            Ok((n, v)) => r matches Ok((rest, x)) && rest@ == i@.subrange(n, i@.len() as int) && x == v,
            Err(e) => r == Err::<(&[u8], ExchangeMTURequest), ParseError>(e),
        },
{
    if i.len() < 1 {
        return Err(ParseError::Incomplete(1));
    }
    if i[0] != ATT_OP_EXCHANGE_MTU_REQ {
        return Err(ParseError::Error);
    }
    if i.len() < 3 {
        return Err(ParseError::Incomplete(2));
    }
    let v = ExchangeMTURequest { client_rx_mtu: u16_at(i, 1) };
    let (_, rest) = i.split_at(3);
    Ok((rest, v))
}

fn error_response_at(b: &[u8], p: usize) -> (r: Result<(usize, ErrorResponse), ParseError>)
    requires
        p <= b@.len(),
    ensures
        match spec_error_response(b@, p as int) {
            Ok((n, v)) => r matches Ok((m, x)) && m == n && x == v,
            Err(e) => r == Err::<(usize, ErrorResponse), ParseError>(e),
        },
{
    let avail: usize = b.len() - p;
    if avail < 1 {
        return Err(ParseError::Incomplete(1));
    }
    if avail < 3 {
        return Err(ParseError::Incomplete(2));
    }
    if avail < 4 {
        return Err(ParseError::Incomplete(1));
    }
    Ok((p + 4, ErrorResponse { request_opcode: b[p], handle: u16_at(b, p + 1), error_code: b[p + 3] }))
}

/// Reads the body of an Error Response (the part after the opcode).
pub fn error_response(i: &[u8]) -> (r: Result<(&[u8], ErrorResponse), ParseError>)
    ensures
        match spec_error_response(i@, 0) {
            Ok((n, v)) => r matches Ok((rest, x)) && rest@ == i@.subrange(n, i@.len() as int) && x == v,
            Err(e) => r == Err::<(&[u8], ErrorResponse), ParseError>(e),
        },
{
    match error_response_at(i, 0) {
        Ok((n, v)) => {
            let (_, rest) = i.split_at(n);
            Ok((rest, v))
        },
        Err(e) => Err(e),
    }
}

/// Reads a Handle Value Notification.
pub fn value_notification(i: &[u8]) -> (r: Result<(&[u8], ValueNotification), ParseError>)
    ensures
        match spec_value_notification(i@) {
            Ok((n, v)) => r matches Ok((rest, x)) && rest@ == i@.subrange(n, i@.len() as int) && x@ == v,
            Err(e) => r == Err::<(&[u8], ValueNotification), ParseError>(e),
        },
{
    if i.len() < 1 {
        return Err(ParseError::Incomplete(1));
    }
    if i[0] != ATT_OP_VALUE_NOTIFICATION {
        return Err(ParseError::Error);
    }
    if i.len() < 3 {
        return Err(ParseError::Incomplete(2));
    }
    if i.len() < 4 {
        return Err(ParseError::Error);
    }
    let v = ValueNotification {
        uuid: CharacteristicUUID::B16(0),
        handle: Some(u16_at(i, 1)),
        value: copy_range(i, 3, i.len()),
    };
    let (_, rest) = i.split_at(i.len());
    Ok((rest, v))
}

fn array16_at(b: &[u8], p: usize) -> (a: [u8; 16])
    requires
        p + 16 <= b.len(),
    ensures
        a@ == b@.subrange(p as int, p + 16),
{
    let a: [u8; 16] = [
        b[p], b[p + 1], b[p + 2], b[p + 3], b[p + 4], b[p + 5], b[p + 6], b[p + 7],
        b[p + 8], b[p + 9], b[p + 10], b[p + 11], b[p + 12], b[p + 13], b[p + 14], b[p + 15],
    ];
    assert(a@ =~= b@.subrange(p as int, p + 16));
    a
}

/// The characteristic declared at `p`, whose bytes are all there.
fn characteristic(b: &[u8], p: usize, b16: bool) -> (c: Characteristic)
    requires
        p + spec_decl_size(b16) <= b.len(),
    ensures
        c@ == spec_characteristic_at(b@, p as int, b16),
{
    let uuid = if b16 {
        CharacteristicUUID::B16(u16_at(b, p + 5))
    } else {
        CharacteristicUUID::B128(array16_at(b, p + 5))
    };
    Characteristic {
        start_handle: u16_at(b, p),
        end_handle: 0xFFFF,
        value_handle: u16_at(b, p + 3),
        uuid,
        properties: CharPropFlags::from_bits_truncate(b[p + 2]),
    }
}

/// Reads a response to a characteristic discovery request: the
/// characteristics declared in a Read By Type Response, or the body of an
/// Error Response.
pub fn characteristics(i: &[u8]) -> (r: Result<(&[u8], Result<Vec<Characteristic>, ErrorResponse>), ParseError>)
    requires
        !spec_characteristics_panics(i@),
    ensures
        match spec_characteristics(i@) {
            Ok((n, Ok(cs))) => r matches Ok((rest, Ok(v))) && rest@ == i@.subrange(n, i@.len() as int)
                && v@.map_values(|c: Characteristic| c@) == cs,
            Ok((n, Err(e))) => r matches Ok((rest, Err(x))) && rest@ == i@.subrange(n, i@.len() as int)
                && x == e,
            Err(e) => r == Err::<(&[u8], Result<Vec<Characteristic>, ErrorResponse>), ParseError>(e),
        },
{
    if i.len() < 1 {
        return Err(ParseError::Incomplete(1));
    }
    let opcode: u8 = i[0];
    if opcode == ATT_OP_ERROR_RESP {
        match error_response_at(i, 1) {
            Ok((n, e)) => {
                let (_, rest) = i.split_at(n);
                Ok((rest, Err(e)))
            },
            Err(e) => Err(e),
        }
    } else if opcode == ATT_OP_READ_BY_TYPE_RESP {
        if i.len() < 2 {
            return Err(ParseError::Incomplete(1));
        }
        let rec_len: u8 = i[1];
        let avail: usize = i.len() - 2;
        let num: usize = avail / (rec_len as usize);
        let b16: bool = rec_len == 7;
        let size: usize = if b16 {
            7
        } else {
            21
        };
        if num > avail / size {
            proof {
                lemma_count_exceeds(num as int, size as int, avail as int);
            }
            let r: usize = avail % size;
            let e = if r < 2 {
                ParseError::Incomplete(2)
            } else if r < 3 {
                ParseError::Incomplete(1)
            } else if r < 5 {
                ParseError::Incomplete(2)
            } else if b16 {
                ParseError::Incomplete(2)
            } else {
                ParseError::Incomplete(1)
            };
            return Err(e);
        }
        proof {
            lemma_count_fits(num as int, size as int, avail as int);
        }
        let mut v: Vec<Characteristic> = Vec::new();
        let mut k: usize = 0;
        while k < num
            invariant
                k <= num,
                num * size <= avail,
                avail == i@.len() - 2,
                size == spec_decl_size(b16),
                b16 == (i@[1] == 7),
                v@.len() == k,
                forall|j: int|
                    0 <= j < k ==> #[trigger] v@[j]@ == spec_characteristic_at(i@, 2 + j * size, b16),
            decreases num - k,
        {
            proof {
                lemma_item_in_range(k as int, num as int, size as int);
            }
            let c = characteristic(i, 2 + k * size, b16);
            v.push(c);
            k = k + 1;
        }
        let end: usize = 2 + num * size;
        let (_, rest) = i.split_at(end);
        proof {
            let cs = Seq::new(num as nat, |j: int| spec_characteristic_at(i@, 2 + j * size, b16));
            assert(v@.map_values(|c: Characteristic| c@) =~= cs);
        }
        Ok((rest, Ok(v)))
    } else {
        let (_, rest) = i.split_at(i.len());
        Ok((rest, Ok(Vec::new())))
    }
}

proof fn lemma_count_exceeds(num: int, size: int, avail: int)
    requires
        size > 0,
        avail >= 0,
        num > avail / size,
    ensures
        num * size > avail,
{
    assert(num * size >= (avail / size + 1) * size) by (nonlinear_arith)
        requires
            num >= avail / size + 1,
            size > 0,
    ;
    assert((avail / size + 1) * size > avail) by (nonlinear_arith)
        requires
            size > 0,
            avail >= 0,
    ;
}

proof fn lemma_count_fits(num: int, size: int, avail: int)
    requires
        size > 0,
        avail >= 0,
        num >= 0,
        num <= avail / size,
    ensures
        num * size <= avail,
{
    assert(num * size <= (avail / size) * size) by (nonlinear_arith)
        requires
            num <= avail / size,
            size > 0,
            num >= 0,
    ;
    assert((avail / size) * size <= avail) by (nonlinear_arith)
        requires
            size > 0,
            avail >= 0,
    ;
}

proof fn lemma_item_in_range(k: int, num: int, size: int)
    requires
        0 <= k < num,
        size > 0,
    ensures
        k * size + size <= num * size,
{
    assert(k * size + size <= num * size) by (nonlinear_arith)
        requires
            k < num,
            size > 0,
    ;
}

/// A Read By Type Request for attributes of type `uuid` between the two
/// handles: the opcode, the handles and the UUID, least significant byte
/// first.
pub fn read_by_type_req(start_handle: u16, end_handle: u16, uuid: CharacteristicUUID) -> (buf: Vec<u8>)
    ensures
        buf@ == seq![
            ATT_OP_READ_BY_TYPE_REQ,
            (start_handle % 256) as u8,
            (start_handle / 256) as u8,
            (end_handle % 256) as u8,
            (end_handle / 256) as u8,
        ] + match uuid@ {
            SpecCharacteristicUUID::B16(u) => seq![(u % 256) as u8, (u / 256) as u8],
            SpecCharacteristicUUID::B128(a) => a,
        },
{
    let mut buf: Vec<u8> = Vec::new();
    buf.push(ATT_OP_READ_BY_TYPE_REQ);
    buf.push((start_handle % 256) as u8);
    buf.push((start_handle / 256) as u8);
    buf.push((end_handle % 256) as u8);
    buf.push((end_handle / 256) as u8);
    let ghost head = buf@;
    match uuid {
        CharacteristicUUID::B16(u) => {
            buf.push((u % 256) as u8);
            buf.push((u / 256) as u8);
        },
        CharacteristicUUID::B128(a) => {
            let mut k: usize = 0;
            while k < 16
                invariant
                    k <= 16,
                    buf@ == head + a@.subrange(0, k as int),
                decreases 16 - k,
            {
                buf.push(a[k]);
                k = k + 1;
                assert(buf@ =~= head + a@.subrange(0, k as int));
            }
            assert(a@.subrange(0, 16) =~= a@);
        },
    }
    assert(buf@ =~= head + match uuid@ {
        SpecCharacteristicUUID::B16(u) => seq![(u % 256) as u8, (u / 256) as u8],
        SpecCharacteristicUUID::B128(a) => a,
    });
    buf
}

/// A Read Request for the attribute at `handle`.
pub fn read_req(handle: u16) -> (buf: Vec<u8>)
    ensures
        buf@ == seq![ATT_OP_READ_REQ, (handle % 256) as u8, (handle / 256) as u8],
{
    let mut buf: Vec<u8> = Vec::new();
    buf.push(ATT_OP_READ_REQ);
    buf.push((handle % 256) as u8);
    buf.push((handle / 256) as u8);
    assert(buf@ =~= seq![ATT_OP_READ_REQ, (handle % 256) as u8, (handle / 256) as u8]);
    buf
}

} // verus!
