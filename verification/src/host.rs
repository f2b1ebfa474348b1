//! Types shared across the host dialogue: transports and device records.

use vstd::prelude::*;

verus! {

/// Integral identifier for one transport on the server.  Assigned by the
/// server and stable only for the transport's lifetime.
#[derive(Copy, Clone, Debug, PartialEq, Eq, Structural)]
pub struct TransportId(pub u64);

/// Selection criteria for a device, resolved by the server to a transport.
#[derive(Clone, Debug, PartialEq, Eq)]
pub enum DeviceCriteria {
    /// Any device.
    Any,
    /// The device with this serial.
    Serial(String),
    /// The device with this transport id.
    TransportId(TransportId),
    /// The USB device (the server reports an error if several are attached).
    Usb,
    /// The TCP device (the server reports an error if several are attached).
    Tcp,
}

/// The mathematical value of a [`DeviceCriteria`].
pub enum DeviceCriteriaView {
    Any,
    Serial { serial: Seq<char> },
    TransportId { id: u64 },
    Usb,
    Tcp,
}

impl View for DeviceCriteria {
    type V = DeviceCriteriaView;

    open spec fn view(&self) -> DeviceCriteriaView {
        match self {
            DeviceCriteria::Any => DeviceCriteriaView::Any,
            DeviceCriteria::Serial(s) => DeviceCriteriaView::Serial { serial: s@ },
            DeviceCriteria::TransportId(t) => DeviceCriteriaView::TransportId { id: t.0 },
            DeviceCriteria::Usb => DeviceCriteriaView::Usb,
            DeviceCriteria::Tcp => DeviceCriteriaView::Tcp,
        }
    }
}

/// A device's self-reported type.
#[derive(Copy, Clone, Debug, PartialEq, Eq, Structural)]
pub enum DeviceType {
    Bootloader,
    Device,
    Host,
    Recovery,
    Rescue,
    Sideload,
}

/// The canonical wire spelling of a device type.
pub open spec fn spec_device_type_str(t: DeviceType) -> Seq<char> {
    match t {
        DeviceType::Bootloader => "bootloader"@,
        DeviceType::Device => "device"@,
        DeviceType::Host => "host"@,
        DeviceType::Recovery => "recovery"@,
        DeviceType::Rescue => "rescue"@,
        DeviceType::Sideload => "sideload"@,
    }
}

impl DeviceType {
    /// The canonical wire spelling of the device type.
    pub fn to_str(self) -> (r: &'static str)
        ensures
            r@ == spec_device_type_str(self),
    {
        match self {
            DeviceType::Bootloader => "bootloader",
            DeviceType::Device => "device",
            DeviceType::Host => "host",
            DeviceType::Recovery => "recovery",
            DeviceType::Rescue => "rescue",
            DeviceType::Sideload => "sideload",
        }
    }
}

/// The state of a connection to a device.
#[derive(Copy, Clone, Debug, PartialEq, Eq, Structural)]
pub enum TransportType {
    /// Offline.
    Offline,
    /// The server sees a USB device but lacks the permissions to access it.
    NoPermissions,
    /// The server failed to authorize and fell back to prompting the user.
    Unauthorized,
    /// The server is in the midst of authentication.
    Authorizing,
    /// The server is in the midst of initiating a socket connection.
    Connecting,
    /// The device is online.
    Online(DeviceType),
}

/// The canonical wire spelling of a transport state.
pub open spec fn spec_transport_type_str(t: TransportType) -> Seq<char> {
    match t {
        TransportType::Offline => "offline"@,
        TransportType::NoPermissions => "no permissions"@,
        TransportType::Unauthorized => "unauthorized"@,
        TransportType::Authorizing => "authorizing"@,
        TransportType::Connecting => "connecting"@,
        TransportType::Online(device_type) => spec_device_type_str(device_type),
    }
}

impl TransportType {
    /// The canonical wire spelling of the transport state.
    pub fn to_str(self) -> (r: &'static str)
        ensures
            r@ == spec_transport_type_str(self),
    {
        match self {
            TransportType::Offline => "offline",
            TransportType::NoPermissions => "no permissions",
            TransportType::Unauthorized => "unauthorized",
            TransportType::Authorizing => "authorizing",
            TransportType::Connecting => "connecting",
            TransportType::Online(device_type) => device_type.to_str(),
        }
    }
}

/// Information about one attached device, as reported by `host:devices-l`.
#[derive(Clone, Debug, PartialEq, Eq)]
pub struct DeviceDescription {
    pub serial: String,
    pub id: TransportId,
    pub transport_type: TransportType,
    pub device_path: Option<String>,
    pub product: Option<String>,
    pub model: Option<String>,
    pub device: Option<String>,
}

/// The mathematical value of a [`DeviceDescription`].
pub struct DeviceDescriptionView {
    pub serial: Seq<char>,
    pub id: u64,
    pub transport_type: TransportType,
    pub device_path: Option<Seq<char>>,
    pub product: Option<Seq<char>>,
    pub model: Option<Seq<char>>,
    pub device: Option<Seq<char>>,
}

/// The view of an optional owned string.
pub open spec fn opt_str_view(o: Option<String>) -> Option<Seq<char>> {
    match o {
        Some(s) => Some(s@),
        None => None,
    }
}

impl View for DeviceDescription {
    type V = DeviceDescriptionView;

    open spec fn view(&self) -> DeviceDescriptionView {
        DeviceDescriptionView {
            serial: self.serial@,
            id: self.id.0,
            transport_type: self.transport_type,
            device_path: opt_str_view(self.device_path),
            product: opt_str_view(self.product),
            model: opt_str_view(self.model),
            device: opt_str_view(self.device),
        }
    }
}

} // verus!
