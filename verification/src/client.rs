//! The host-service dialogue: service requests and the replies the server
//! sends for version queries, device listings and transport selection.
//!
//! Every operation of a [`Remote`] is stateless across calls: the embedding
//! program dials a fresh socket, writes one framed request, reads the reply
//! into a transcript, and hands the bytes to the parsers here.

use vstd::prelude::*;
use vstd::string::*;

use crate::devices::descs_view;
use crate::devices::parse_device_list;
use crate::devices::spec_parse_device_list;
use crate::digits::fmt_u64;
use crate::digits::le_u64;
use crate::digits::le_val;
use crate::digits::parse_hex_u32;
use crate::digits::spec_dec_str;
use crate::digits::spec_parse_hex_u32;
use crate::error::Error;
use crate::error::ErrorView;
use crate::framing::bytes_to_string_lossy;
use crate::framing::copy_range;
use crate::framing::encode_hex_prefixed;
use crate::framing::eof_msg;
use crate::framing::expect_okay;
use crate::framing::hex_prefixed;
use crate::framing::lossy_utf8;
use crate::framing::read_hex_payload;
use crate::framing::spec_expect_okay;
use crate::framing::spec_read_hex_payload;
use crate::host::DeviceCriteria;
use crate::host::DeviceCriteriaView;
use crate::host::DeviceDescription;
use crate::host::DeviceDescriptionView;
use crate::host::TransportId;
use crate::socketspec::SocketSpec;
use crate::socketspec::SocketSpecView;

verus! {

/// A pointer to the location of an adb server.
pub struct Remote {
    socket_spec: SocketSpec,
}

impl View for Remote {
    type V = SocketSpecView;

    closed spec fn view(&self) -> SocketSpecView {
        self.socket_spec@
    }
}

impl Remote {
    /// Constructs a new `Remote`.
    pub fn new(socket_spec: SocketSpec) -> (r: Remote)
        ensures
            r@ == socket_spec@,
    {
        Remote { socket_spec }
    }

    /// The address of the server, for dialing.
    pub fn socket_spec(&self) -> (r: &SocketSpec)
        ensures
            r@ == self@,
    {
        &self.socket_spec
    }
}

impl Default for Remote {
    /// A `Remote` pointing to the default adb server location, 127.0.0.1:5037.
    fn default() -> (r: Remote)
        ensures
            r@ == (SocketSpecView::Tcp { host: Some("127.0.0.1"@), port: 5037 }),
    {
        Remote::new(SocketSpec::tcp(Some(String::from_str("127.0.0.1")), 5037))
    }
}

// ---------------------------------------------------------------------------
// requests
// ---------------------------------------------------------------------------

/// The message used when a service name is too long to frame.
pub open spec fn oversize_service_msg() -> Seq<char> {
    "service name too long"@
}

/// Frames one service request: the four-digit hex length prefix, then the
/// service name's bytes.  A name longer than the prefix can say is refused.
pub fn service_request_bytes(service: &str) -> (r: Result<Vec<u8>, Error>)
    ensures
        service.spec_bytes().len() <= 0xFFFF ==> (r matches Ok(v) && v@ == hex_prefixed(
            service.spec_bytes(),
        )),
        service.spec_bytes().len() > 0xFFFF ==> (r matches Err(e) && e@
            == ErrorView::UnexpectedData { msg: oversize_service_msg() }),
{
    let bytes = service.as_bytes_vec();
    if bytes.len() > 0xFFFF {
        return Err(Error::UnexpectedData(String::from_str("service name too long")));
    }
    Ok(encode_hex_prefixed(bytes.as_slice()))
}

/// The `host:tport:` (or `host:transport-id:`) selector a device criteria
/// translates to.
pub open spec fn spec_selector(c: DeviceCriteriaView) -> Seq<char> {
    match c {
        DeviceCriteriaView::Any => "host:tport:any"@,
        DeviceCriteriaView::Usb => "host:tport:usb"@,
        DeviceCriteriaView::Tcp => "host:tport:tcp"@,
        DeviceCriteriaView::Serial { serial } => "host:tport:serial:"@ + serial,
        DeviceCriteriaView::TransportId { id } => "host:transport-id:"@ + spec_dec_str(id as nat),
    }
}

/// Whether the server acknowledges the selector with eight little-endian
/// bytes of transport id before the next service: the `tport` selectors do,
/// `transport-id` does not, because the caller already knows the id.
pub open spec fn spec_selector_acks_id(c: DeviceCriteriaView) -> bool {
    !(c is TransportId)
}

/// Translates a device criteria to its selector service name, and says
/// whether an eight-byte transport-id acknowledgement follows the OKAY.
pub fn selector_string(criteria: &DeviceCriteria) -> (r: (String, bool))
    ensures
        r.0@ == spec_selector(criteria@),
        r.1 == spec_selector_acks_id(criteria@),
{
    match criteria {
        DeviceCriteria::Any => (String::from_str("host:tport:any"), true),
        DeviceCriteria::Usb => (String::from_str("host:tport:usb"), true),
        DeviceCriteria::Tcp => (String::from_str("host:tport:tcp"), true),
        DeviceCriteria::Serial(serial) => (
            String::from_str("host:tport:serial:").concat(serial.as_str()),
            true,
        ),
        DeviceCriteria::TransportId(id) => (
            String::from_str("host:transport-id:").concat(fmt_u64(id.0).as_str()),
            false,
        ),
    }
}

// ---------------------------------------------------------------------------
// replies
// ---------------------------------------------------------------------------

/// The message used when the version payload is not hexadecimal.
pub open spec fn invalid_version_msg(p: Seq<u8>) -> Seq<char> {
    "invalid version received '"@ + lossy_utf8(p) + "'"@
}

/// What the version payload means: its ASCII contents read as a hex u32.
pub open spec fn spec_parse_version_payload(p: Seq<u8>) -> Result<u32, ErrorView> {
    match spec_parse_hex_u32(p) {
        Some(v) => Ok(v),
        None => Err(ErrorView::UnexpectedData { msg: invalid_version_msg(p) }),
    }
}

/// What the whole `host:version` reply transcript means: an OKAY, then one
/// hex-prefixed payload read as a hex u32.
pub open spec fn spec_parse_version_response(s: Seq<u8>) -> Result<u32, ErrorView> {
    match spec_expect_okay(s, 0) {
        Err(e) => Err(e),
        Ok(pos) => match spec_read_hex_payload(s, pos) {
            Err(e) => Err(e),
            Ok(p) => spec_parse_version_payload(p.0),
        },
    }
}

/// Reads the server's reply to `host:version`.
pub fn parse_version_response(buf: &[u8]) -> (r: Result<u32, Error>)
    ensures
        r matches Ok(v) ==> spec_parse_version_response(buf@) == Ok::<_, ErrorView>(v),
        r matches Err(e) ==> spec_parse_version_response(buf@) == Err::<u32, _>(e@),
{
    let pos = match expect_okay(buf, 0) {
        Ok(p) => p,
        Err(e) => {
            return Err(e);
        },
    };
    let payload = match read_hex_payload(buf, pos) {
        Ok((p, _)) => p,
        Err(e) => {
            return Err(e);
        },
    };
    match parse_hex_u32(payload.as_slice()) {
        Some(v) => Ok(v),
        None => {
            let shown = bytes_to_string_lossy(payload.as_slice());
            let msg = String::from_str("invalid version received '").concat(shown.as_str()).concat(
                "'",
            );
            proof {
                assert(msg@ =~= invalid_version_msg(payload@));
            }
            Err(Error::UnexpectedData(msg))
        },
    }
}

/// What the whole `host:devices-l` reply transcript means: an OKAY, then one
/// hex-prefixed payload decoded tolerantly as UTF-8 and read as the device
/// list.
pub open spec fn spec_parse_devices_response(s: Seq<u8>) -> Result<
    Seq<DeviceDescriptionView>,
    ErrorView,
> {
    match spec_expect_okay(s, 0) {
        Err(e) => Err(e),
        Ok(pos) => match spec_read_hex_payload(s, pos) {
            Err(e) => Err(e),
            Ok(p) => spec_parse_device_list(lossy_utf8(p.0)),
        },
    }
}

/// Reads the server's reply to `host:devices-l`.
pub fn parse_devices_response(buf: &[u8]) -> (r: Result<Vec<DeviceDescription>, Error>)
    ensures
        r matches Ok(v) ==> spec_parse_devices_response(buf@) == Ok::<_, ErrorView>(
            descs_view(v@),
        ),
        r matches Err(e) ==> spec_parse_devices_response(buf@) == Err::<
            Seq<DeviceDescriptionView>,
            _,
        >(e@),
{
    let pos = match expect_okay(buf, 0) {
        Ok(p) => p,
        Err(e) => {
            return Err(e);
        },
    };
    let payload = match read_hex_payload(buf, pos) {
        Ok((p, _)) => p,
        Err(e) => {
            return Err(e);
        },
    };
    let text = bytes_to_string_lossy(payload.as_slice());
    parse_device_list(text.as_str())
}

/// What the eight-byte transport-id acknowledgement at `pos` means.
pub open spec fn spec_read_transport_id(s: Seq<u8>, pos: int) -> Result<(u64, int), ErrorView> {
    if s.len() - pos < 8 {
        Err(ErrorView::IoError { msg: eof_msg() })
    } else {
        Ok((le_val(s.subrange(pos, pos + 8)) as u64, pos + 8))
    }
}

/// Reads the eight little-endian bytes of a transport-id acknowledgement.
pub fn read_transport_id(buf: &[u8], pos: usize) -> (r: Result<(TransportId, usize), Error>)
    requires
        pos <= buf@.len(),
    ensures
        r matches Ok(p) ==> (spec_read_transport_id(buf@, pos as int) matches Ok(sp)
            && p.0.0 == sp.0 && p.1 as int == sp.1 && pos <= p.1 <= buf@.len()),
        r matches Err(e) ==> (spec_read_transport_id(buf@, pos as int) matches Err(se) && e@
            == se),
{
    if buf.len() - pos < 8 {
        return Err(Error::IoError(String::from_str("unexpected end of stream")));
    }
    let ack = copy_range(buf, pos, pos + 8);
    let id = le_u64(ack.as_slice());
    Ok((TransportId(id), pos + 8))
}

/// What the first half of a `host:tport:` reply transcript means: an OKAY,
/// then the resolved transport id.  The service request that follows is
/// acknowledged by a further status word at the returned position.
pub open spec fn spec_parse_tport_response(s: Seq<u8>) -> Result<(u64, int), ErrorView> {
    match spec_expect_okay(s, 0) {
        Err(e) => Err(e),
        Ok(pos) => spec_read_transport_id(s, pos),
    }
}

/// Reads the server's reply to a `host:tport:` selector.
pub fn parse_tport_response(buf: &[u8]) -> (r: Result<(TransportId, usize), Error>)
    ensures
        r matches Ok(p) ==> (spec_parse_tport_response(buf@) matches Ok(sp) && p.0.0 == sp.0
            && p.1 as int == sp.1 && p.1 <= buf@.len()),
        r matches Err(e) ==> (spec_parse_tport_response(buf@) matches Err(se) && e@ == se),
{
    let pos = match expect_okay(buf, 0) {
        Ok(p) => p,
        Err(e) => {
            return Err(e);
        },
    };
    read_transport_id(buf, pos)
}

} // verus!
